//! Versioned transformations applied to decoded text before tokenization.

use vstd::prelude::*;

use crate::chars::{chars_of, string_of};

verus! {

/// Current opt-in normalization revision.
pub const NORMALIZATION_VERSION: u32 = 1;

/// The byte-order mark character.
pub open spec fn bom() -> char {
    '\u{feff}'
}

/// `s` without one leading byte-order mark.
pub open spec fn strip_bom(s: Seq<char>) -> Seq<char> {
    if s.len() > 0 && s[0] == bom() {
        s.drop_first()
    } else {
        s
    }
}

/// `s` with every CRLF pair and every lone CR replaced by one LF.
pub open spec fn normalize_line_endings(s: Seq<char>) -> Seq<char>
    decreases s.len(),
{
    if s.len() == 0 {
        s
    } else if s[0] == '\r' {
        if s.len() > 1 && s[1] == '\n' {
            seq!['\n'] + normalize_line_endings(s.skip(2))
        } else {
            seq!['\n'] + normalize_line_endings(s.drop_first())
        }
    } else {
        seq![s[0]] + normalize_line_endings(s.drop_first())
    }
}

/// The normalized view of a text: one leading BOM removed, line endings made LF.
pub open spec fn normalized(s: Seq<char>) -> Seq<char> {
    normalize_line_endings(strip_bom(s))
}

/// Policy applied to decoded text before tokenization.
#[derive(Clone, Copy, Debug, PartialEq, Eq, Structural)]
pub enum TextPolicy {
    /// Measure decoded text without changing it.
    Literal,
    /// Remove a leading UTF-8 BOM and normalize line endings to LF.
    Normalized,
}

impl Default for TextPolicy {
    fn default() -> (r: Self)
        ensures
            r == TextPolicy::Literal,
    {
        TextPolicy::Literal
    }
}

/// Serialized description of the selected text policy.
#[derive(Clone, Copy, Debug, PartialEq, Eq)]
pub struct TextPolicyMetadata {
    /// Stable mode name.
    pub mode: &'static str,
    /// Policy revision when the mode performs a transformation.
    pub version: Option<u32>,
}

impl TextPolicy {
    /// The text that is measured under this policy.
    pub open spec fn spec_apply(self, text: Seq<char>) -> Seq<char> {
        match self {
            TextPolicy::Literal => text,
            TextPolicy::Normalized => normalized(text),
        }
    }

    /// The stable identity used by cache keys.
    pub open spec fn spec_fingerprint(self) -> Seq<char> {
        match self {
            TextPolicy::Literal => "literal-v1"@,
            TextPolicy::Normalized => "normalized-v1"@,
        }
    }

    /// The stable mode name reported in metadata.
    pub open spec fn spec_mode(self) -> Seq<char> {
        match self {
            TextPolicy::Literal => "literal"@,
            TextPolicy::Normalized => "normalized"@,
        }
    }

    /// The revision reported in metadata.
    pub open spec fn spec_version(self) -> Option<u32> {
        match self {
            TextPolicy::Literal => None,
            TextPolicy::Normalized => Some(NORMALIZATION_VERSION),
        }
    }

    /// Whether `m` is the metadata that describes this policy.
    pub open spec fn spec_describes(self, m: TextPolicyMetadata) -> bool {
        m.mode@ == self.spec_mode() && m.version == self.spec_version()
    }

    /// Return the stable identity used by cache keys.
    pub fn fingerprint(self) -> (r: &'static str)
        ensures
            r@ == self.spec_fingerprint(),
    {
        match self {
            TextPolicy::Literal => "literal-v1",
            TextPolicy::Normalized => "normalized-v1",
        }
    }

    /// Return structured public metadata for this policy.
    pub fn metadata(self) -> (r: TextPolicyMetadata)
        ensures
            self.spec_describes(r),
    {
        match self {
            TextPolicy::Literal => TextPolicyMetadata { mode: "literal", version: None },
            TextPolicy::Normalized => TextPolicyMetadata {
                mode: "normalized",
                version: Some(NORMALIZATION_VERSION),
            },
        }
    }

    /// The text measured under this policy.
    pub fn apply(self, text: &str) -> (r: String)
        ensures
            r@ == self.spec_apply(text@),
    {
        match self {
            TextPolicy::Literal => text.to_owned(),
            TextPolicy::Normalized => {
                let chars = chars_of(text);
                let out = normalize(chars.as_slice());
                string_of(out.as_slice())
            },
        }
    }
}

proof fn lemma_normalize_step_crlf(s: Seq<char>, i: int)
    requires
        0 <= i,
        i + 1 < s.len(),
        s[i] == '\r',
        s[i + 1] == '\n',
    ensures
        normalize_line_endings(s.skip(i)) == seq!['\n'] + normalize_line_endings(s.skip(i + 2)),
{
    assert(s.skip(i).skip(2) =~= s.skip(i + 2));
}

proof fn lemma_normalize_step_one(s: Seq<char>, i: int)
    requires
        0 <= i < s.len(),
        !(s[i] == '\r' && i + 1 < s.len() && s[i + 1] == '\n'),
    ensures
        normalize_line_endings(s.skip(i)) == seq![if s[i] == '\r' { '\n' } else { s[i] }]
            + normalize_line_endings(s.skip(i + 1)),
{
    assert(s.skip(i).drop_first() =~= s.skip(i + 1));
}

/// Normalizes a decoded text: drops one leading BOM and rewrites CRLF and CR as LF.
pub fn normalize(text: &[char]) -> (r: Vec<char>)
    ensures
        r@ == normalized(text@),
{
    let start: usize = if text.len() > 0 && text[0] == '\u{feff}' { 1 } else { 0 };
    let ghost w = strip_bom(text@);
    assert(w =~= text@.skip(start as int));
    let mut out: Vec<char> = Vec::new();
    let mut i: usize = start;
    assert(text@.skip(start as int) =~= w);
    while i < text.len()
        invariant
            start <= i <= text.len(),
            w == text@.skip(start as int),
            out@ + normalize_line_endings(text@.skip(i as int)) == normalize_line_endings(w),
        decreases text.len() - i,
    {
        let c = text[i];
        if c == '\r' && i + 1 < text.len() && text[i + 1] == '\n' {
            proof {
                lemma_normalize_step_crlf(text@, i as int);
            }
            out.push('\n');
            i += 2;
        } else {
            proof {
                lemma_normalize_step_one(text@, i as int);
            }
            if c == '\r' {
                out.push('\n');
            } else {
                out.push(c);
            }
            i += 1;
        }
        assert(out@ + normalize_line_endings(text@.skip(i as int)) =~= normalize_line_endings(w));
    }
    assert(text@.skip(i as int) =~= Seq::<char>::empty());
    assert(out@ + Seq::<char>::empty() =~= out@);
    out
}

/// Line-ending normalization never leaves a carriage return behind.
pub proof fn lemma_normalize_line_endings_has_no_cr(s: Seq<char>)
    ensures
        !normalize_line_endings(s).contains('\r'),
    decreases s.len(),
{
    if s.len() > 0 {
        if s[0] == '\r' && s.len() > 1 && s[1] == '\n' {
            lemma_normalize_line_endings_has_no_cr(s.skip(2));
        } else {
            lemma_normalize_line_endings_has_no_cr(s.drop_first());
        }
        let r = normalize_line_endings(s);
        if r.contains('\r') {
            let k = choose|k: int| 0 <= k < r.len() && r[k] == '\r';
            if s[0] == '\r' && s.len() > 1 && s[1] == '\n' {
                assert(r[k] == normalize_line_endings(s.skip(2))[k - 1]);
            } else {
                assert(r[k] == normalize_line_endings(s.drop_first())[k - 1]);
            }
        }
    }
}

/// Line-ending normalization leaves a text without carriage returns unchanged.
pub proof fn lemma_normalize_line_endings_identity(s: Seq<char>)
    requires
        !s.contains('\r'),
    ensures
        normalize_line_endings(s) == s,
    decreases s.len(),
{
    if s.len() > 0 {
        assert(s[0] != '\r');
        assert(!s.drop_first().contains('\r')) by {
            if s.drop_first().contains('\r') {
                let k = choose|k: int| 0 <= k < s.drop_first().len() && s.drop_first()[k] == '\r';
                assert(s[k + 1] == '\r');
            }
        }
        lemma_normalize_line_endings_identity(s.drop_first());
        assert(seq![s[0]] + s.drop_first() =~= s);
    }
}

/// The first character of a line-ending normalization is LF or the first character itself.
proof fn lemma_normalize_line_endings_first(s: Seq<char>)
    requires
        s.len() > 0,
    ensures
        normalize_line_endings(s).len() > 0,
        normalize_line_endings(s)[0] == (if s[0] == '\r' { '\n' } else { s[0] }),
{
}

/// Normalizing twice is normalizing once, for every text that does not open
/// with two byte-order marks (the second would surface and be removed).
pub proof fn lemma_normalized_idempotent(s: Seq<char>)
    requires
        !(s.len() > 1 && s[0] == bom() && s[1] == bom()),
    ensures
        normalized(normalized(s)) == normalized(s),
{
    let n = normalized(s);
    lemma_normalize_line_endings_has_no_cr(strip_bom(s));
    if n.len() > 0 {
        lemma_normalize_line_endings_first(strip_bom(s));
        assert(n[0] != bom());
    }
    assert(strip_bom(n) == n);
    lemma_normalize_line_endings_identity(n);
}

/// Text measured under either policy has no carriage returns once normalized.
pub proof fn lemma_normalized_has_no_cr(s: Seq<char>)
    ensures
        !normalized(s).contains('\r'),
{
    lemma_normalize_line_endings_has_no_cr(strip_bom(s));
}

} // verus!
