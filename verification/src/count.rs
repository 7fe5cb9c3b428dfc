//! Shared raw-text counting entry point.

use vstd::prelude::*;

use crate::error::{CountError, TokenizerError};
use crate::text_policy::{TextPolicy, TextPolicyMetadata, normalized};
use crate::tokenizer::{
    BuiltinEncoding, BuiltinTokenCounter, CountBackend, HuggingFaceTokenCounter, TokenizerMetadata,
};
use crate::tokenizer::huggingface::artifact_problem;

verus! {

/// Configuration shared by raw text, byte, scan, and frontend entry points.
pub struct CountOptions {
    tokenizer: CountBackend,
    text_policy: TextPolicy,
}

impl CountOptions {
    /// The configured tokenizer.
    pub closed spec fn spec_tokenizer(&self) -> CountBackend {
        self.tokenizer
    }

    /// The configured text policy.
    pub closed spec fn spec_text_policy(&self) -> TextPolicy {
        self.text_policy
    }

    /// Whether these options count with the given built-in encoding.
    pub open spec fn uses_encoding(&self, encoding: BuiltinEncoding) -> bool {
        &&& self.spec_tokenizer() matches CountBackend::Builtin(c)
        &&& c.spec_encoding() == encoding
        &&& BuiltinTokenCounter::spec_metadata_for(encoding, c.spec_metadata())
    }

    /// The identity of the configured tokenizer.
    pub open spec fn spec_metadata(&self) -> TokenizerMetadata {
        self.spec_tokenizer().spec_metadata()
    }

    /// Construct options around a token counter, measuring text literally.
    pub fn new(tokenizer: CountBackend) -> (r: Self)
        ensures
            r.spec_tokenizer() == tokenizer,
            r.spec_text_policy() == TextPolicy::Literal,
    {
        CountOptions { tokenizer, text_policy: TextPolicy::Literal }
    }

    /// Construct options for a built-in exact encoding.
    pub fn for_encoding(encoding: BuiltinEncoding) -> (r: Self)
        ensures
            r.uses_encoding(encoding),
            r.spec_text_policy() == TextPolicy::Literal,
    {
        CountOptions::new(CountBackend::Builtin(BuiltinTokenCounter::new(encoding)))
    }

    /// Construct options by resolving a supported model alias.
    pub fn for_model(model: &str) -> (r: Result<Self, TokenizerError>)
        ensures
            match BuiltinEncoding::spec_for_model(model@) {
                Some(e) => r matches Ok(o) && o.uses_encoding(e) && o.spec_text_policy()
                    == TextPolicy::Literal,
                None => r matches Err(TokenizerError::UnsupportedModel(m)) && m@ == model@,
            },
    {
        match BuiltinEncoding::for_model(model) {
            Ok(encoding) => Ok(CountOptions::for_encoding(encoding)),
            Err(e) => Err(e),
        }
    }

    /// Construct options from the bytes of a local Hugging Face `tokenizer.json`
    /// artifact; `path` names the artifact in metadata and errors.
    pub fn for_tokenizer_file(path: &str, contents: &[u8]) -> (r: Result<Self, TokenizerError>)
        ensures
            match artifact_problem(contents@) {
                None => r matches Ok(o) && o.spec_tokenizer() is HuggingFace
                    && HuggingFaceTokenCounter::spec_metadata_for(path@, contents@, o.spec_metadata())
                    && o.spec_text_policy() == TextPolicy::Literal,
                Some(m) => r matches Err(TokenizerError::ArtifactInvalid { path: p, message })
                    && p@ == path@ && message@ == m,
            },
    {
        match HuggingFaceTokenCounter::from_artifact(path, contents) {
            Ok(counter) => Ok(CountOptions::new(CountBackend::HuggingFace(counter))),
            Err(e) => Err(e),
        }
    }

    /// Select the transformation applied before tokenization.
    pub fn with_text_policy(self, text_policy: TextPolicy) -> (r: Self)
        ensures
            r.spec_tokenizer() == self.spec_tokenizer(),
            r.spec_text_policy() == text_policy,
    {
        CountOptions { tokenizer: self.tokenizer, text_policy }
    }

    /// Return the configured tokenizer.
    pub fn tokenizer(&self) -> (r: &CountBackend)
        ensures
            *r == self.spec_tokenizer(),
    {
        &self.tokenizer
    }

    /// Return the configured text policy.
    pub fn text_policy(&self) -> (r: TextPolicy)
        ensures
            r == self.spec_text_policy(),
    {
        self.text_policy
    }
}

impl Default for CountOptions {
    fn default() -> (r: Self)
        ensures
            r.uses_encoding(BuiltinEncoding::O200kBase),
            r.spec_text_policy() == TextPolicy::Literal,
    {
        CountOptions::for_encoding(BuiltinEncoding::O200kBase)
    }
}

/// Result of measuring one decoded string.
#[derive(Debug, PartialEq, Eq)]
pub struct CountResult {
    /// Number of tokens after applying the selected text policy.
    pub tokens: u64,
    /// Size of the original UTF-8 string before policy transformations.
    pub bytes: u64,
    /// Stable identity of the tokenizer used for the count.
    pub tokenizer: TokenizerMetadata,
    /// Versioned text transformation applied before tokenization.
    pub text_policy: TextPolicyMetadata,
}

/// The number of tokens stated for a text under these options, where it is stated.
pub open spec fn spec_text_tokens(text: Seq<char>, options: CountOptions) -> Option<nat> {
    options.spec_tokenizer().spec_count(options.spec_text_policy().spec_apply(text))
}

/// Normalization changes only the measured view: under the same tokenizer,
/// the normalized count of a text is the literal count of its normalized form,
/// and the stated count, where there is one, is the same.
pub proof fn law_normalization_changes_only_the_view(text: Seq<char>, normalizing: CountOptions, literal: CountOptions)
    requires
        normalizing.spec_tokenizer() == literal.spec_tokenizer(),
        normalizing.spec_text_policy() == TextPolicy::Normalized,
        literal.spec_text_policy() == TextPolicy::Literal,
    ensures
        spec_text_tokens(text, normalizing) == spec_text_tokens(normalized(text), literal),
{
}

/// Whether `r` is the successful count of `text` (with its `bytes`) under `options`.
pub open spec fn counted(r: CountResult, text: Seq<char>, bytes: nat, options: CountOptions) -> bool {
    &&& r.bytes == bytes
    &&& r.tokenizer == options.spec_metadata()
    &&& options.spec_text_policy().spec_describes(r.text_policy)
    &&& spec_text_tokens(text, options) matches Some(n) ==> r.tokens == n
}

/// Count tokens in one already-decoded string.
///
/// All higher-level entry points route through this function so tokenizer and
/// text-policy semantics remain identical.
pub fn count_text(text: &str, options: &CountOptions) -> (r: Result<CountResult, CountError>)
    ensures
        match r {
            Ok(res) => counted(res, text@, text.len() as nat, *options),
            Err(CountError::Tokenizer(e)) => options.spec_tokenizer().spec_reports(e) && spec_text_tokens(text@, *options)
                is None,
        },
{
    let measured = options.text_policy.apply(text);
    let tokens = match options.tokenizer.count_tokens(measured.as_str()) {
        Ok(n) => n,
        Err(e) => {
            return Err(CountError::Tokenizer(e));
        },
    };
    let bytes = text.len() as u64;
    let res = CountResult {
        tokens,
        bytes,
        tokenizer: options.tokenizer.metadata_ref().clone(),
        text_policy: options.text_policy.metadata(),
    };
    Ok(res)
}

} // verus!
