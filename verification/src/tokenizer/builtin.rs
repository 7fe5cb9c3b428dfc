//! Built-in tiktoken-compatible encodings.

use vstd::prelude::*;

use super::{AccuracyClass, RawTextSemantics, TokenCounter, TokenizerKind, TokenizerMetadata};
use crate::chars::{chars_of, has_prefix, starts_with_str, str_eq};
use crate::error::TokenizerError;

verus! {

/// Number of tokens `tiktoken_rs::o200k_base_singleton()` yields for a text under the
/// ordinary encoding, or `None` when its splitting pattern gives up on the text
/// (the regex engine's backtracking limit).
pub uninterp spec fn o200k_ordinary_len(text: Seq<char>) -> Option<nat>;

/// Number of tokens `tiktoken_rs::cl100k_base_singleton()` yields for a text under the
/// ordinary encoding, or `None` when its splitting pattern gives up on the text.
pub uninterp spec fn cl100k_ordinary_len(text: Seq<char>) -> Option<nat>;

/// `CoreBPE::encode(text, &{})` on `tiktoken_rs::o200k_base_singleton()`, reduced to
/// the number of tokens.
///
/// With no special token allowed, `encode` skips every special-token match and
/// splits the whole text with the same pattern and merges as `encode_ordinary`,
/// so its tokens are the ordinary encoding's. Unlike `encode_ordinary`, which
/// unwraps each pattern match, it returns the regex engine's failure as an
/// error. The count is only named; the error's message is not stated.
#[verifier::external_body]
fn o200k_ordinary_count(text: &str) -> (r: Result<usize, String>)
    ensures
        match r {
            Ok(n) => o200k_ordinary_len(text@) == Some(n as nat),
            Err(_) => o200k_ordinary_len(text@) is None,
        },
{
    let no_special = std::collections::HashSet::new();
    tiktoken_rs::o200k_base_singleton()
        .encode(text, &no_special)
        .map(|(tokens, _)| tokens.len())
        .map_err(|error| error.to_string())
}

/// `CoreBPE::encode(text, &{})` on `tiktoken_rs::cl100k_base_singleton()`, reduced to
/// the number of tokens; as for `o200k_ordinary_count`.
#[verifier::external_body]
fn cl100k_ordinary_count(text: &str) -> (r: Result<usize, String>)
    ensures
        match r {
            Ok(n) => cl100k_ordinary_len(text@) == Some(n as nat),
            Err(_) => cl100k_ordinary_len(text@) is None,
        },
{
    let no_special = std::collections::HashSet::new();
    tiktoken_rs::cl100k_base_singleton()
        .encode(text, &no_special)
        .map(|(tokens, _)| tokens.len())
        .map_err(|error| error.to_string())
}

/// Built-in exact encoding families.
#[derive(Clone, Copy, Debug, PartialEq, Eq, Structural)]
pub enum BuiltinEncoding {
    /// OpenAI's `o200k_base` encoding.
    O200kBase,
    /// OpenAI's `cl100k_base` encoding.
    Cl100kBase,
}

impl Default for BuiltinEncoding {
    fn default() -> (r: Self)
        ensures
            r == BuiltinEncoding::O200kBase,
    {
        BuiltinEncoding::O200kBase
    }
}

/// Tokens of a text under a built-in encoding; `None` where the encoding's
/// splitting pattern gives up on the text.
pub open spec fn builtin_count(encoding: BuiltinEncoding, text: Seq<char>) -> Option<nat> {
    match encoding {
        BuiltinEncoding::O200kBase => o200k_ordinary_len(text),
        BuiltinEncoding::Cl100kBase => cl100k_ordinary_len(text),
    }
}

/// Whether a model alias resolves to `o200k_base`.
pub open spec fn is_o200k_model(m: Seq<char>) -> bool {
    m == "gpt-5"@ || m == "gpt-4.1"@ || m == "gpt-4o"@ || has_prefix(m, "gpt-5"@)
        || has_prefix(m, "gpt-4.1-"@) || has_prefix(m, "gpt-4o-"@)
}

/// Whether a model alias resolves to `cl100k_base`.
pub open spec fn is_cl100k_model(m: Seq<char>) -> bool {
    m == "gpt-4"@ || m == "gpt-3.5-turbo"@ || has_prefix(m, "gpt-4-"@) || has_prefix(
        m,
        "gpt-3.5-turbo-"@,
    )
}

impl BuiltinEncoding {
    /// The accepted command-line name.
    pub open spec fn spec_name(self) -> Seq<char> {
        match self {
            BuiltinEncoding::O200kBase => "o200k_base"@,
            BuiltinEncoding::Cl100kBase => "cl100k_base"@,
        }
    }

    /// The stable tokenizer-data and semantics identity.
    pub open spec fn spec_fingerprint(self) -> Seq<char> {
        match self {
            BuiltinEncoding::O200kBase => "tiktoken:o200k_base:tiktoken-rs-0.12.0:ordinary-v1"@,
            BuiltinEncoding::Cl100kBase => "tiktoken:cl100k_base:tiktoken-rs-0.12.0:ordinary-v1"@,
        }
    }

    /// The encoding a model alias resolves to, if it is supported.
    pub open spec fn spec_for_model(m: Seq<char>) -> Option<BuiltinEncoding> {
        if is_o200k_model(m) {
            Some(BuiltinEncoding::O200kBase)
        } else if is_cl100k_model(m) {
            Some(BuiltinEncoding::Cl100kBase)
        } else {
            None
        }
    }

    /// The encoding whose command-line name is `v`, if any.
    pub open spec fn spec_parse(v: Seq<char>) -> Option<BuiltinEncoding> {
        if v == "o200k_base"@ {
            Some(BuiltinEncoding::O200kBase)
        } else if v == "cl100k_base"@ {
            Some(BuiltinEncoding::Cl100kBase)
        } else {
            None
        }
    }

    /// Resolve a supported model alias to its underlying encoding family.
    ///
    /// Model names are conveniences only. Stable tokenizer identity remains
    /// the resolved encoding fingerprint returned in result metadata.
    pub fn for_model(model: &str) -> (r: Result<Self, TokenizerError>)
        ensures
            match BuiltinEncoding::spec_for_model(model@) {
                Some(e) => r == Ok::<BuiltinEncoding, TokenizerError>(e),
                None => r matches Err(TokenizerError::UnsupportedModel(m)) && m@ == model@,
            },
    {
        let m = chars_of(model);
        let s = m.as_slice();
        if str_eq(model, "gpt-5") || str_eq(model, "gpt-4.1") || str_eq(model, "gpt-4o")
            || starts_with_str(s, "gpt-5") || starts_with_str(s, "gpt-4.1-") || starts_with_str(
            s,
            "gpt-4o-",
        ) {
            return Ok(BuiltinEncoding::O200kBase);
        }
        if str_eq(model, "gpt-4") || str_eq(model, "gpt-3.5-turbo") || starts_with_str(s, "gpt-4-")
            || starts_with_str(s, "gpt-3.5-turbo-") {
            return Ok(BuiltinEncoding::Cl100kBase);
        }
        Err(TokenizerError::UnsupportedModel(model.to_owned()))
    }

    /// Parse an accepted command-line name.
    pub fn parse(value: &str) -> (r: Result<Self, TokenizerError>)
        ensures
            match BuiltinEncoding::spec_parse(value@) {
                Some(e) => r == Ok::<BuiltinEncoding, TokenizerError>(e),
                None => r matches Err(TokenizerError::UnsupportedEncoding(v)) && v@ == value@,
            },
    {
        if str_eq(value, "o200k_base") {
            Ok(BuiltinEncoding::O200kBase)
        } else if str_eq(value, "cl100k_base") {
            Ok(BuiltinEncoding::Cl100kBase)
        } else {
            Err(TokenizerError::UnsupportedEncoding(value.to_owned()))
        }
    }

    /// Return the accepted command-line name.
    pub fn as_str(self) -> (r: &'static str)
        ensures
            r@ == self.spec_name(),
    {
        match self {
            BuiltinEncoding::O200kBase => "o200k_base",
            BuiltinEncoding::Cl100kBase => "cl100k_base",
        }
    }

    /// Return the stable tokenizer-data and semantics identity.
    pub fn fingerprint(self) -> (r: &'static str)
        ensures
            r@ == self.spec_fingerprint(),
    {
        match self {
            BuiltinEncoding::O200kBase => "tiktoken:o200k_base:tiktoken-rs-0.12.0:ordinary-v1",
            BuiltinEncoding::Cl100kBase => "tiktoken:cl100k_base:tiktoken-rs-0.12.0:ordinary-v1",
        }
    }
}

/// Parsing a name returned by `as_str` gives back the same encoding.
pub proof fn lemma_encoding_names_round_trip(e: BuiltinEncoding)
    ensures
        BuiltinEncoding::spec_parse(e.spec_name()) == Some(e),
{
    reveal_strlit("o200k_base");
    reveal_strlit("cl100k_base");
    assert("o200k_base"@[0] != "cl100k_base"@[0]);
}

/// Exact counter backed by vendored tiktoken-compatible data.
#[derive(Debug)]
pub struct BuiltinTokenCounter {
    encoding: BuiltinEncoding,
    metadata: TokenizerMetadata,
}

impl BuiltinTokenCounter {
    /// Selected encoding family.
    pub closed spec fn spec_encoding(&self) -> BuiltinEncoding {
        self.encoding
    }

    /// Identity reported with every count.
    pub closed spec fn spec_metadata(&self) -> TokenizerMetadata {
        self.metadata
    }

    #[verifier::type_invariant]
    spec fn metadata_invariant(&self) -> bool {
        BuiltinTokenCounter::spec_metadata_for(self.encoding, self.metadata)
    }

    /// Return the identity reported with every count.
    pub fn metadata_ref(&self) -> (r: &TokenizerMetadata)
        ensures
            *r == self.spec_metadata(),
            BuiltinTokenCounter::spec_metadata_for(self.spec_encoding(), *r),
    {
        proof {
            use_type_invariant(self);
        }
        &self.metadata
    }

    /// The metadata a built-in counter reports for an encoding.
    pub open spec fn spec_metadata_for(encoding: BuiltinEncoding, m: TokenizerMetadata) -> bool {
        &&& m.kind == TokenizerKind::Builtin
        &&& m.name@ == encoding.spec_name()
        &&& m.fingerprint@ == encoding.spec_fingerprint()
        &&& m.accuracy == AccuracyClass::Exact
        &&& m.raw_text_semantics == RawTextSemantics::Ordinary
    }

    /// Construct a counter for one supported encoding.
    pub fn new(encoding: BuiltinEncoding) -> (r: Self)
        ensures
            r.spec_encoding() == encoding,
            BuiltinTokenCounter::spec_metadata_for(encoding, r.spec_metadata()),
    {
        BuiltinTokenCounter {
            encoding,
            metadata: TokenizerMetadata {
                kind: TokenizerKind::Builtin,
                name: encoding.as_str().to_owned(),
                fingerprint: encoding.fingerprint().to_owned(),
                accuracy: AccuracyClass::Exact,
                raw_text_semantics: RawTextSemantics::Ordinary,
            },
        }
    }

    /// Return the selected encoding family.
    pub fn encoding(&self) -> (r: BuiltinEncoding)
        ensures
            r == self.spec_encoding(),
    {
        self.encoding
    }

    /// Count tokens in one decoded text under the ordinary (no special tokens)
    /// encoding; a text that the encoding's splitting pattern gives up on is a
    /// backend error.
    pub fn count_tokens(&self, text: &str) -> (r: Result<u64, TokenizerError>)
        ensures
            match builtin_count(self.spec_encoding(), text@) {
                Some(n) => r matches Ok(t) && t == n,
                None => r matches Err(e) && e is Backend,
            },
    {
        let counted = match self.encoding {
            BuiltinEncoding::O200kBase => o200k_ordinary_count(text),
            BuiltinEncoding::Cl100kBase => cl100k_ordinary_count(text),
        };
        match counted {
            Ok(n) => Ok(n as u64),
            Err(message) => Err(TokenizerError::Backend(message)),
        }
    }
}

impl Clone for BuiltinTokenCounter {
    fn clone(&self) -> (r: Self)
        ensures
            r == *self,
    {
        proof {
            use_type_invariant(self);
        }
        BuiltinTokenCounter { encoding: self.encoding, metadata: self.metadata.clone() }
    }
}

impl TokenCounter for BuiltinTokenCounter {
    fn metadata(&self) -> (r: &TokenizerMetadata)
        ensures
            *r == self.spec_metadata(),
            BuiltinTokenCounter::spec_metadata_for(self.spec_encoding(), *r),
    {
        self.metadata_ref()
    }

    fn count(&self, text: &str) -> (r: Result<u64, TokenizerError>)
        ensures
            match builtin_count(self.spec_encoding(), text@) {
                Some(n) => r matches Ok(t) && t == n,
                None => r matches Err(e) && e is Backend,
            },
    {
        self.count_tokens(text)
    }
}

} // verus!
