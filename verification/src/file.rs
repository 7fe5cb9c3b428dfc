//! Individual input measurement and skip policy.

use vstd::prelude::*;

verus! {

/// Default maximum size of one measured file: 20 MiB.
pub const DEFAULT_MAX_FILE_SIZE: u64 = 20971520;

/// Maximum number of file bodies measured concurrently by default.
pub const DEFAULT_MAX_WORKERS: usize = 8;

/// Policy used when bytes are not valid UTF-8.
#[derive(Clone, Copy, Debug, PartialEq, Eq, Structural)]
pub enum InvalidUtf8Policy {
    /// Omit invalid UTF-8 and report a skip.
    Skip,
    /// Replace invalid byte sequences using Rust-compatible lossy decoding.
    Lossy,
}

impl Default for InvalidUtf8Policy {
    fn default() -> (r: Self)
        ensures
            r == InvalidUtf8Policy::Skip,
    {
        InvalidUtf8Policy::Skip
    }
}

impl InvalidUtf8Policy {
    /// The stable identity used by cache keys.
    pub open spec fn spec_fingerprint(self) -> Seq<char> {
        match self {
            InvalidUtf8Policy::Skip => "invalid-utf8-skip-v1"@,
            InvalidUtf8Policy::Lossy => "invalid-utf8-lossy-v1"@,
        }
    }

    /// Return the stable identity used by cache keys.
    pub fn fingerprint(self) -> (r: &'static str)
        ensures
            r@ == self.spec_fingerprint(),
    {
        match self {
            InvalidUtf8Policy::Skip => "invalid-utf8-skip-v1",
            InvalidUtf8Policy::Lossy => "invalid-utf8-lossy-v1",
        }
    }
}

/// Maximum byte size admitted for one file.
#[derive(Clone, Copy, Debug, PartialEq, Eq, Structural)]
pub enum MaxFileSize {
    /// Admit files up to and including this byte count.
    Limited(u64),
    /// Disable the individual-file size limit.
    Unlimited,
}

impl Default for MaxFileSize {
    fn default() -> (r: Self)
        ensures
            r == MaxFileSize::Limited(DEFAULT_MAX_FILE_SIZE),
    {
        MaxFileSize::Limited(DEFAULT_MAX_FILE_SIZE)
    }
}

impl MaxFileSize {
    /// Whether an input of this many bytes is admitted.
    pub open spec fn spec_admits(self, bytes: int) -> bool {
        match self {
            MaxFileSize::Limited(limit) => bytes <= limit,
            MaxFileSize::Unlimited => true,
        }
    }

    /// Whether an input of this many bytes is admitted.
    pub fn admits(self, bytes: u64) -> (r: bool)
        ensures
            r == self.spec_admits(bytes as int),
    {
        match self {
            MaxFileSize::Limited(limit) => bytes <= limit,
            MaxFileSize::Unlimited => true,
        }
    }
}

/// Reason a discovered input was not measured.
#[derive(Clone, Copy, Debug, PartialEq, Eq, Structural, PartialOrd, Ord, Hash)]
pub enum SkipReason {
    /// Initial bytes matched the binary-file heuristic.
    Binary,
    /// File exceeded the selected byte limit.
    Oversized,
    /// Bytes were not valid UTF-8 under skip policy.
    InvalidUtf8,
    /// A recognizable unsupported text encoding was found.
    UnsupportedEncoding,
    /// Metadata or contents could not be read.
    Unreadable,
    /// The path was not a regular file.
    UnsupportedFilesystemType,
    /// A symbolic link was not followed.
    Symlink,
}

impl SkipReason {
    /// Position of this reason in the declared order.
    pub open spec fn rank(self) -> int {
        match self {
            SkipReason::Binary => 0,
            SkipReason::Oversized => 1,
            SkipReason::InvalidUtf8 => 2,
            SkipReason::UnsupportedEncoding => 3,
            SkipReason::Unreadable => 4,
            SkipReason::UnsupportedFilesystemType => 5,
            SkipReason::Symlink => 6,
        }
    }

    /// Concise human-readable label.
    pub open spec fn spec_label(self) -> Seq<char> {
        match self {
            SkipReason::Binary => "binary"@,
            SkipReason::Oversized => "oversized"@,
            SkipReason::InvalidUtf8 => "invalid UTF-8"@,
            SkipReason::UnsupportedEncoding => "unsupported encoding"@,
            SkipReason::Unreadable => "unreadable"@,
            SkipReason::UnsupportedFilesystemType => "unsupported filesystem type"@,
            SkipReason::Symlink => "symlink"@,
        }
    }

    /// Position of this reason in the declared order.
    pub fn index(self) -> (r: u8)
        ensures
            r as int == self.rank(),
    {
        match self {
            SkipReason::Binary => 0,
            SkipReason::Oversized => 1,
            SkipReason::InvalidUtf8 => 2,
            SkipReason::UnsupportedEncoding => 3,
            SkipReason::Unreadable => 4,
            SkipReason::UnsupportedFilesystemType => 5,
            SkipReason::Symlink => 6,
        }
    }

    /// Return a concise human-readable label.
    pub fn as_str(self) -> (r: &'static str)
        ensures
            r@ == self.spec_label(),
    {
        match self {
            SkipReason::Binary => "binary",
            SkipReason::Oversized => "oversized",
            SkipReason::InvalidUtf8 => "invalid UTF-8",
            SkipReason::UnsupportedEncoding => "unsupported encoding",
            SkipReason::Unreadable => "unreadable",
            SkipReason::UnsupportedFilesystemType => "unsupported filesystem type",
            SkipReason::Symlink => "symlink",
        }
    }
}

} // verus!

use crate::cache::{CachePolicy, CachedCount, MetadataSnapshot};
use crate::classify::{Language, classify, spec_classify};
use crate::count::{CountOptions, count_text, spec_text_tokens};
use crate::decode::{DecodeOutcome, decode, decode_skip, decoded_text};
use crate::error::CountError;
use crate::text_policy::TextPolicyMetadata;
use crate::tokenizer::TokenizerMetadata;
use vstd::utf8::valid_utf8;

verus! {

/// The characters of an optional string.
pub open spec fn opt_view(o: Option<String>) -> Option<Seq<char>> {
    match o {
        Some(s) => Some(s@),
        None => None,
    }
}

/// Clone an optional string.
pub fn clone_opt_string(o: &Option<String>) -> (r: Option<String>)
    ensures
        r == *o,
{
    match o {
        Some(s) => Some(s.clone()),
        None => None,
    }
}

/// The optional owned form of an optional static detail.
pub fn owned_detail(detail: Option<&'static str>) -> (r: Option<String>)
    ensures
        opt_view(r) == match detail {
            Some(d) => Some(d@),
            None => None::<Seq<char>>,
        },
{
    match detail {
        Some(d) => Some(d.to_owned()),
        None => None,
    }
}

/// Options shared by explicit file counting and recursive scans.
pub struct ScanOptions {
    count: CountOptions,
    invalid_utf8: InvalidUtf8Policy,
    max_file_size: MaxFileSize,
    include_globs: Vec<String>,
    exclude_globs: Vec<String>,
    hidden: bool,
    no_ignore: bool,
    follow_symlinks: bool,
    workers: Option<usize>,
    cache: CachePolicy,
}

impl ScanOptions {
    /// Shared text-counting options.
    pub closed spec fn spec_count(&self) -> CountOptions { self.count }
    /// Invalid UTF-8 handling.
    pub closed spec fn spec_invalid_utf8(&self) -> InvalidUtf8Policy { self.invalid_utf8 }
    /// Individual-file size limit.
    pub closed spec fn spec_max_file_size(&self) -> MaxFileSize { self.max_file_size }
    /// Inclusive path globs.
    pub closed spec fn spec_includes(&self) -> Seq<String> { self.include_globs@ }
    /// Exclusive path globs.
    pub closed spec fn spec_excludes(&self) -> Seq<String> { self.exclude_globs@ }
    /// Whether hidden paths are discovered.
    pub closed spec fn spec_hidden(&self) -> bool { self.hidden }
    /// Whether ignore files are disregarded.
    pub closed spec fn spec_no_ignore(&self) -> bool { self.no_ignore }
    /// Whether symbolic links are followed.
    pub closed spec fn spec_follow_symlinks(&self) -> bool { self.follow_symlinks }
    /// Explicit worker bound, or `None` for the machine default.
    pub closed spec fn spec_workers(&self) -> Option<usize> { self.workers }
    /// Persistent cache policy.
    pub closed spec fn spec_cache(&self) -> CachePolicy { self.cache }

    /// Construct scan options around shared counting semantics.
    pub fn new(count: CountOptions) -> (r: Self)
        ensures
            r.spec_count() == count,
            r.spec_invalid_utf8() == InvalidUtf8Policy::Skip,
            r.spec_max_file_size() == MaxFileSize::Limited(DEFAULT_MAX_FILE_SIZE),
            r.spec_includes().len() == 0,
            r.spec_excludes().len() == 0,
            !r.spec_hidden(),
            !r.spec_no_ignore(),
            !r.spec_follow_symlinks(),
            r.spec_workers() is None,
            r.spec_cache() == CachePolicy::Default,
    {
        ScanOptions {
            count,
            invalid_utf8: InvalidUtf8Policy::Skip,
            max_file_size: MaxFileSize::Limited(DEFAULT_MAX_FILE_SIZE),
            include_globs: Vec::new(),
            exclude_globs: Vec::new(),
            hidden: false,
            no_ignore: false,
            follow_symlinks: false,
            workers: None,
            cache: CachePolicy::Default,
        }
    }

    /// Select invalid UTF-8 handling.
    pub fn with_invalid_utf8(self, policy: InvalidUtf8Policy) -> (r: Self)
        ensures
            r.spec_invalid_utf8() == policy,
            r.spec_count() == self.spec_count(),
            r.spec_max_file_size() == self.spec_max_file_size(),
            r.spec_includes() == self.spec_includes(),
            r.spec_excludes() == self.spec_excludes(),
            r.spec_hidden() == self.spec_hidden(),
            r.spec_no_ignore() == self.spec_no_ignore(),
            r.spec_follow_symlinks() == self.spec_follow_symlinks(),
            r.spec_workers() == self.spec_workers(),
            r.spec_cache() == self.spec_cache(),
    {
        proof {
            use_type_invariant(&self);
        }
        ScanOptions { invalid_utf8: policy, ..self }
    }

    /// Select the maximum admitted individual-file size.
    pub fn with_max_file_size(self, limit: MaxFileSize) -> (r: Self)
        ensures
            r.spec_max_file_size() == limit,
            r.spec_count() == self.spec_count(),
            r.spec_invalid_utf8() == self.spec_invalid_utf8(),
            r.spec_includes() == self.spec_includes(),
            r.spec_excludes() == self.spec_excludes(),
            r.spec_hidden() == self.spec_hidden(),
            r.spec_no_ignore() == self.spec_no_ignore(),
            r.spec_follow_symlinks() == self.spec_follow_symlinks(),
            r.spec_workers() == self.spec_workers(),
            r.spec_cache() == self.spec_cache(),
    {
        proof {
            use_type_invariant(&self);
        }
        ScanOptions { max_file_size: limit, ..self }
    }

    /// Add an inclusive path glob. At least one of them must match when set.
    pub fn with_include(self, pattern: &str) -> (r: Self)
        ensures
            r.spec_includes().len() == self.spec_includes().len() + 1,
            r.spec_includes().drop_last() == self.spec_includes(),
            r.spec_includes().last()@ == pattern@,
            r.spec_count() == self.spec_count(),
            r.spec_invalid_utf8() == self.spec_invalid_utf8(),
            r.spec_max_file_size() == self.spec_max_file_size(),
            r.spec_excludes() == self.spec_excludes(),
            r.spec_hidden() == self.spec_hidden(),
            r.spec_no_ignore() == self.spec_no_ignore(),
            r.spec_follow_symlinks() == self.spec_follow_symlinks(),
            r.spec_workers() == self.spec_workers(),
            r.spec_cache() == self.spec_cache(),
    {
        proof {
            use_type_invariant(&self);
        }
        let mut include_globs = self.include_globs;
        include_globs.push(pattern.to_owned());
        proof {
            assert(include_globs@.drop_last() =~= self.include_globs@);
        }
        ScanOptions { include_globs, ..self }
    }

    /// Add an exclusive path glob.
    pub fn with_exclude(self, pattern: &str) -> (r: Self)
        ensures
            r.spec_excludes().len() == self.spec_excludes().len() + 1,
            r.spec_excludes().drop_last() == self.spec_excludes(),
            r.spec_excludes().last()@ == pattern@,
            r.spec_count() == self.spec_count(),
            r.spec_invalid_utf8() == self.spec_invalid_utf8(),
            r.spec_max_file_size() == self.spec_max_file_size(),
            r.spec_includes() == self.spec_includes(),
            r.spec_hidden() == self.spec_hidden(),
            r.spec_no_ignore() == self.spec_no_ignore(),
            r.spec_follow_symlinks() == self.spec_follow_symlinks(),
            r.spec_workers() == self.spec_workers(),
            r.spec_cache() == self.spec_cache(),
    {
        proof {
            use_type_invariant(&self);
        }
        let mut exclude_globs = self.exclude_globs;
        exclude_globs.push(pattern.to_owned());
        proof {
            assert(exclude_globs@.drop_last() =~= self.exclude_globs@);
        }
        ScanOptions { exclude_globs, ..self }
    }

    /// Include hidden paths during discovery.
    pub fn with_hidden(self, hidden: bool) -> (r: Self)
        ensures
            r.spec_hidden() == hidden,
            r.spec_count() == self.spec_count(),
            r.spec_invalid_utf8() == self.spec_invalid_utf8(),
            r.spec_max_file_size() == self.spec_max_file_size(),
            r.spec_includes() == self.spec_includes(),
            r.spec_excludes() == self.spec_excludes(),
            r.spec_no_ignore() == self.spec_no_ignore(),
            r.spec_follow_symlinks() == self.spec_follow_symlinks(),
            r.spec_workers() == self.spec_workers(),
            r.spec_cache() == self.spec_cache(),
    {
        proof {
            use_type_invariant(&self);
        }
        ScanOptions { hidden, ..self }
    }

    /// Disable `.gitignore`, `.ignore`, and Git exclude_globs processing.
    pub fn with_no_ignore(self, no_ignore: bool) -> (r: Self)
        ensures
            r.spec_no_ignore() == no_ignore,
            r.spec_count() == self.spec_count(),
            r.spec_invalid_utf8() == self.spec_invalid_utf8(),
            r.spec_max_file_size() == self.spec_max_file_size(),
            r.spec_includes() == self.spec_includes(),
            r.spec_excludes() == self.spec_excludes(),
            r.spec_hidden() == self.spec_hidden(),
            r.spec_follow_symlinks() == self.spec_follow_symlinks(),
            r.spec_workers() == self.spec_workers(),
            r.spec_cache() == self.spec_cache(),
    {
        proof {
            use_type_invariant(&self);
        }
        ScanOptions { no_ignore, ..self }
    }

    /// Follow symbolic links during discovery and file measurement.
    pub fn with_follow_symlinks(self, follow: bool) -> (r: Self)
        ensures
            r.spec_follow_symlinks() == follow,
            r.spec_count() == self.spec_count(),
            r.spec_invalid_utf8() == self.spec_invalid_utf8(),
            r.spec_max_file_size() == self.spec_max_file_size(),
            r.spec_includes() == self.spec_includes(),
            r.spec_excludes() == self.spec_excludes(),
            r.spec_hidden() == self.spec_hidden(),
            r.spec_no_ignore() == self.spec_no_ignore(),
            r.spec_workers() == self.spec_workers(),
            r.spec_cache() == self.spec_cache(),
    {
        proof {
            use_type_invariant(&self);
        }
        ScanOptions { follow_symlinks: follow, ..self }
    }

    /// Bound the number of files measured concurrently.
    pub fn with_workers(self, workers: usize) -> (r: Self)
        requires
            workers > 0,
        ensures
            r.spec_workers() == Some(workers),
            r.spec_count() == self.spec_count(),
            r.spec_invalid_utf8() == self.spec_invalid_utf8(),
            r.spec_max_file_size() == self.spec_max_file_size(),
            r.spec_includes() == self.spec_includes(),
            r.spec_excludes() == self.spec_excludes(),
            r.spec_hidden() == self.spec_hidden(),
            r.spec_no_ignore() == self.spec_no_ignore(),
            r.spec_follow_symlinks() == self.spec_follow_symlinks(),
            r.spec_cache() == self.spec_cache(),
    {
        proof {
            use_type_invariant(&self);
        }
        ScanOptions { workers: Some(workers), ..self }
    }

    /// Enable or disable persistent content-addressed caching.
    pub fn with_cache_enabled(self, enabled: bool) -> (r: Self)
        ensures
            r.spec_cache() == (if enabled { CachePolicy::Default } else { CachePolicy::Disabled }),
            r.spec_count() == self.spec_count(),
            r.spec_invalid_utf8() == self.spec_invalid_utf8(),
            r.spec_max_file_size() == self.spec_max_file_size(),
            r.spec_includes() == self.spec_includes(),
            r.spec_excludes() == self.spec_excludes(),
            r.spec_hidden() == self.spec_hidden(),
            r.spec_no_ignore() == self.spec_no_ignore(),
            r.spec_follow_symlinks() == self.spec_follow_symlinks(),
            r.spec_workers() == self.spec_workers(),
    {
        let cache = if enabled {
            CachePolicy::Default
        } else {
            CachePolicy::Disabled
        };
        proof {
            use_type_invariant(&self);
        }
        ScanOptions { cache, ..self }
    }

    /// Use an explicit persistent cache directory.
    pub fn with_cache_directory(self, path: &str) -> (r: Self)
        ensures
            (r.spec_cache() matches CachePolicy::Directory(p) && p@ == path@),
            r.spec_count() == self.spec_count(),
            r.spec_invalid_utf8() == self.spec_invalid_utf8(),
            r.spec_max_file_size() == self.spec_max_file_size(),
            r.spec_includes() == self.spec_includes(),
            r.spec_excludes() == self.spec_excludes(),
            r.spec_hidden() == self.spec_hidden(),
            r.spec_no_ignore() == self.spec_no_ignore(),
            r.spec_follow_symlinks() == self.spec_follow_symlinks(),
            r.spec_workers() == self.spec_workers(),
    {
        proof {
            use_type_invariant(&self);
        }
        ScanOptions { cache: CachePolicy::Directory(path.to_owned()), ..self }
    }

    /// Return the shared text-counting options.
    pub fn count_options(&self) -> (r: &CountOptions)
        ensures
            *r == self.spec_count(),
    {
        &self.count
    }

    /// Return invalid UTF-8 handling.
    pub fn invalid_utf8(&self) -> (r: InvalidUtf8Policy)
        ensures
            r == self.spec_invalid_utf8(),
    {
        self.invalid_utf8
    }

    /// Return the individual-file size limit.
    pub fn max_file_size(&self) -> (r: MaxFileSize)
        ensures
            r == self.spec_max_file_size(),
    {
        self.max_file_size
    }

    /// Return the inclusive path globs.
    pub fn includes(&self) -> (r: &Vec<String>)
        ensures
            r@ == self.spec_includes(),
    {
        &self.include_globs
    }

    /// Return the exclusive path globs.
    pub fn excludes(&self) -> (r: &Vec<String>)
        ensures
            r@ == self.spec_excludes(),
    {
        &self.exclude_globs
    }

    /// Return whether hidden paths are discovered.
    pub fn hidden(&self) -> (r: bool)
        ensures
            r == self.spec_hidden(),
    {
        self.hidden
    }

    /// Return whether ignore files are disregarded.
    pub fn no_ignore(&self) -> (r: bool)
        ensures
            r == self.spec_no_ignore(),
    {
        self.no_ignore
    }

    /// Return whether symbolic links are followed.
    pub fn follow_symlinks(&self) -> (r: bool)
        ensures
            r == self.spec_follow_symlinks(),
    {
        self.follow_symlinks
    }

    /// Return the number of files measured concurrently, given the machine's
    /// available parallelism: an explicit bound, else the available
    /// parallelism (at least one) capped at `DEFAULT_MAX_WORKERS`.
    pub fn workers(&self, available: usize) -> (r: usize)
        ensures
            r >= 1,
            match self.spec_workers() {
                Some(w) => r == w,
                None => r == (if available < 1 { 1 } else if available > DEFAULT_MAX_WORKERS {
                    DEFAULT_MAX_WORKERS
                } else {
                    available
                }),
            },
    {
        proof {
            use_type_invariant(self);
        }
        match self.workers {
            Some(w) => w,
            None => {
                if available < 1 {
                    1
                } else if available > DEFAULT_MAX_WORKERS {
                    DEFAULT_MAX_WORKERS
                } else {
                    available
                }
            },
        }
    }

    /// Return the persistent cache policy.
    pub fn cache_policy(&self) -> (r: &CachePolicy)
        ensures
            *r == self.spec_cache(),
    {
        &self.cache
    }

    #[verifier::type_invariant]
    spec fn workers_positive(&self) -> bool {
        self.workers matches Some(w) ==> w > 0
    }
}

impl Default for ScanOptions {
    fn default() -> (r: Self)
        ensures
            r.spec_count().uses_encoding(crate::tokenizer::BuiltinEncoding::O200kBase),
            r.spec_invalid_utf8() == InvalidUtf8Policy::Skip,
            r.spec_max_file_size() == MaxFileSize::Limited(DEFAULT_MAX_FILE_SIZE),
            r.spec_cache() == CachePolicy::Default,
    {
        ScanOptions::new(CountOptions::default())
    }
}

} // verus!

verus! {

/// Structured record for one omitted path.
#[derive(Debug, PartialEq, Eq)]
pub struct SkipDetail {
    /// Original path supplied to or discovered by the engine.
    pub path: String,
    /// Stable skip category.
    pub reason: SkipReason,
    /// Optional specific encoding or other deterministic detail.
    pub detail: Option<String>,
}

impl Clone for SkipDetail {
    fn clone(&self) -> (r: Self)
        ensures
            r == *self,
    {
        SkipDetail {
            path: self.path.clone(),
            reason: self.reason,
            detail: clone_opt_string(&self.detail),
        }
    }
}

/// Measurement for one regular text file.
#[derive(Debug, PartialEq, Eq)]
pub struct FileResult {
    /// Original path supplied to or discovered by the engine.
    pub path: String,
    /// Path-based language classification.
    pub language: Language,
    /// Exact tokenizer count after text-policy handling.
    pub tokens: u64,
    /// Original file size in bytes.
    pub bytes: u64,
    /// Whether invalid bytes were replaced before tokenization.
    pub decoded_lossily: bool,
    /// Stable identity of the tokenizer used for the count.
    pub tokenizer: TokenizerMetadata,
    /// Versioned text transformation applied before tokenization.
    pub text_policy: TextPolicyMetadata,
    /// Invalid UTF-8 policy active for this measurement.
    pub invalid_utf8: InvalidUtf8Policy,
}

/// Measurement for one in-memory byte input such as stdin.
#[derive(Debug, PartialEq, Eq)]
pub struct ByteCountResult {
    /// Exact tokenizer count after decode and text-policy handling.
    pub tokens: u64,
    /// Original input size in bytes.
    pub bytes: u64,
    /// Whether invalid bytes were replaced before tokenization.
    pub decoded_lossily: bool,
    /// Stable identity of the tokenizer used for the count.
    pub tokenizer: TokenizerMetadata,
    /// Versioned text transformation applied before tokenization.
    pub text_policy: TextPolicyMetadata,
    /// Invalid UTF-8 policy active for this measurement.
    pub invalid_utf8: InvalidUtf8Policy,
}

/// Structured skip for one in-memory byte input.
#[derive(Debug, PartialEq, Eq)]
pub struct ByteSkip {
    /// Stable skip category.
    pub reason: SkipReason,
    /// Optional specific encoding or other deterministic detail.
    pub detail: Option<String>,
}

/// Result of attempting to measure one in-memory byte input.
#[derive(Debug, PartialEq, Eq)]
pub enum ByteOutcome {
    /// The byte input was measured successfully.
    Measured(ByteCountResult),
    /// The byte input was intentionally omitted with a visible reason.
    Skipped(ByteSkip),
}

/// Result of attempting to measure one filesystem path.
#[derive(Debug, PartialEq, Eq)]
pub enum FileOutcome {
    /// The path was measured successfully.
    Measured(FileResult),
    /// The path was intentionally omitted with a visible reason.
    Skipped(SkipDetail),
}

/// The skip (reason and detail) that measuring these bytes yields, or `None` when they are measured.
pub open spec fn byte_skip(b: Seq<u8>, options: ScanOptions) -> Option<(SkipReason, Option<Seq<char>>)> {
    if !options.spec_max_file_size().spec_admits(b.len() as int) {
        Some((SkipReason::Oversized, None))
    } else {
        decode_skip(b, options.spec_invalid_utf8())
    }
}

/// Whether a skip record carries the given reason and detail.
pub open spec fn skip_is(reason: SkipReason, detail: Option<String>, expected: (SkipReason, Option<Seq<char>>)) -> bool {
    reason == expected.0 && opt_view(detail) == expected.1
}

/// Whether `r` records a measurement of the bytes `b` under `options` with `tokens`.
pub open spec fn byte_measurement(r: ByteCountResult, b: Seq<u8>, options: ScanOptions) -> bool {
    &&& r.bytes == b.len()
    &&& r.decoded_lossily == !valid_utf8(b)
    &&& r.tokenizer == options.spec_count().spec_metadata()
    &&& options.spec_count().spec_text_policy().spec_describes(r.text_policy)
    &&& r.invalid_utf8 == options.spec_invalid_utf8()
}

/// The count of the decoded text of `b`, where the counting backend states it.
pub open spec fn byte_tokens(b: Seq<u8>, options: ScanOptions) -> Option<nat> {
    spec_text_tokens(decoded_text(b), options.spec_count())
}

/// Whether `r` is the outcome of measuring `b` under `options`, with the token
/// count coming from `tokens` when it is stated.
pub open spec fn byte_outcome_is(r: ByteOutcome, b: Seq<u8>, options: ScanOptions, tokens: Option<nat>) -> bool {
    match byte_skip(b, options) {
        Some(expected) => r matches ByteOutcome::Skipped(s) && skip_is(s.reason, s.detail, expected),
        None => r matches ByteOutcome::Measured(m) && byte_measurement(m, b, options) && (
        tokens matches Some(n) ==> m.tokens == n),
    }
}

/// A skip outcome for an in-memory input.
pub fn byte_skipped(reason: SkipReason, detail: Option<String>) -> (r: ByteOutcome)
    ensures
        r == ByteOutcome::Skipped(ByteSkip { reason, detail }),
{
    ByteOutcome::Skipped(ByteSkip { reason, detail })
}

/// Decode bytes that passed the size check and produce the measured outcome,
/// taking the token count from `cached` when it was recorded for the same decoding.
fn measure_bytes(bytes: &[u8], options: &ScanOptions, cached: Option<CachedCount>) -> (r: Result<(ByteOutcome, Option<CachedCount>), CountError>)
    requires
        options.spec_max_file_size().spec_admits(bytes@.len() as int),
    ensures
        match r {
            Ok((outcome, publish)) => {
                let used = match cached {
                    Some(c) => if c.decoded_lossily == !valid_utf8(bytes@) {
                        Some(c.tokens as nat)
                    } else {
                        byte_tokens(bytes@, *options)
                    },
                    None => byte_tokens(bytes@, *options),
                };
                &&& byte_outcome_is(outcome, bytes@, *options, used)
                &&& match outcome {
                    ByteOutcome::Measured(m) => publish == Some(
                        CachedCount { tokens: m.tokens, decoded_lossily: m.decoded_lossily },
                    ),
                    ByteOutcome::Skipped(_) => publish is None,
                }
            },
            Err(CountError::Tokenizer(e)) => options.spec_count().spec_tokenizer().spec_reports(e) && byte_tokens(bytes@, *options) is None
                && byte_skip(bytes@, *options) is None,
        },
{
    let decoded = decode(bytes, options.invalid_utf8);
    let (text, decoded_lossily) = match decoded {
        DecodeOutcome::Text { text, decoded_lossily } => (text, decoded_lossily),
        DecodeOutcome::Skipped { reason, detail } => {
            return Ok((byte_skipped(reason, owned_detail(detail)), None));
        },
    };
    let tokens = match cached {
        Some(c) if c.decoded_lossily == decoded_lossily => c.tokens,
        _ => match count_text(text.as_str(), &options.count) {
            Ok(result) => result.tokens,
            Err(e) => {
                return Err(e);
            },
        },
    };
    let outcome = ByteOutcome::Measured(ByteCountResult {
        tokens,
        bytes: bytes.len() as u64,
        decoded_lossily,
        tokenizer: options.count.tokenizer().metadata_ref().clone(),
        text_policy: options.count.text_policy().metadata(),
        invalid_utf8: options.invalid_utf8,
    });
    Ok((outcome, Some(CachedCount { tokens, decoded_lossily })))
}

/// Measure in-memory bytes under the same decode and count policy as files.
pub fn count_bytes(bytes: &[u8], options: &ScanOptions) -> (r: Result<ByteOutcome, CountError>)
    ensures
        match r {
            Ok(outcome) => byte_outcome_is(outcome, bytes@, *options, byte_tokens(bytes@, *options)),
            Err(CountError::Tokenizer(e)) => options.spec_count().spec_tokenizer().spec_reports(e) && byte_tokens(bytes@, *options) is None
                && byte_skip(bytes@, *options) is None,
        },
{
    match count_bytes_cached(bytes, options, None) {
        Ok((outcome, _)) => Ok(outcome),
        Err(e) => Err(e),
    }
}

/// Measure in-memory bytes, reusing `cached` (the count remembered for the same
/// content and counting semantics) when it was recorded for the same decoding.
/// Also returns the count to remember for this content, when it was measured.
///
/// When `cached` is absent, or holds the count the tokenizer would produce,
/// the outcome is the one `count_bytes` gives.
pub fn count_bytes_cached(bytes: &[u8], options: &ScanOptions, cached: Option<CachedCount>) -> (r: Result<(ByteOutcome, Option<CachedCount>), CountError>)
    ensures
        match r {
            Ok((outcome, publish)) => {
                let used = match cached {
                    Some(c) => if c.decoded_lossily == !valid_utf8(bytes@) {
                        Some(c.tokens as nat)
                    } else {
                        byte_tokens(bytes@, *options)
                    },
                    None => byte_tokens(bytes@, *options),
                };
                &&& byte_outcome_is(outcome, bytes@, *options, used)
                &&& match outcome {
                    ByteOutcome::Measured(m) => publish == Some(
                        CachedCount { tokens: m.tokens, decoded_lossily: m.decoded_lossily },
                    ),
                    ByteOutcome::Skipped(_) => publish is None,
                }
            },
            Err(CountError::Tokenizer(e)) => options.spec_count().spec_tokenizer().spec_reports(e) && byte_tokens(bytes@, *options) is None
                && byte_skip(bytes@, *options) is None,
        },
{
    let byte_count = bytes.len() as u64;
    if !options.max_file_size.admits(byte_count) {
        return Ok((byte_skipped(SkipReason::Oversized, None), None));
    }
    measure_bytes(bytes, options, cached)
}

} // verus!

verus! {

/// Filesystem facts observed for one path.
#[derive(Clone, Copy, Debug, PartialEq, Eq, Structural)]
pub struct PathMetadata {
    /// Whether the path itself is a symbolic link.
    pub is_symlink: bool,
    /// Whether the path is a regular file.
    pub is_file: bool,
    /// Size in bytes.
    pub len: u64,
    /// Modification time in nanoseconds since the Unix epoch, when known.
    pub modified_nanos: Option<u64>,
}

/// The next step in measuring one filesystem path.
#[derive(Debug, PartialEq, Eq)]
pub enum FileStep {
    /// Measurement finished with this outcome.
    Done(FileOutcome),
    /// Inspect the target of the symbolic link.
    FollowLink,
    /// Read the contents, bounded by `read_allowance`; the metadata snapshot
    /// identifies this version of the file for the metadata index.
    ReadContents(MetadataSnapshot),
}

/// The snapshot of observed metadata used by the metadata index.
pub open spec fn spec_snapshot(m: PathMetadata) -> MetadataSnapshot {
    MetadataSnapshot { size: m.len, modified_nanos: m.modified_nanos }
}

/// The snapshot of observed metadata used by the metadata index.
pub fn snapshot_of(m: PathMetadata) -> (r: MetadataSnapshot)
    ensures
        r == spec_snapshot(m),
{
    MetadataSnapshot { size: m.len, modified_nanos: m.modified_nanos }
}

/// A skip outcome for one path.
pub fn skipped(path: &str, reason: SkipReason, detail: Option<String>) -> (r: FileOutcome)
    ensures
        r matches FileOutcome::Skipped(s) && s.path@ == path@ && s.reason == reason && s.detail
            == detail,
{
    FileOutcome::Skipped(SkipDetail { path: path.to_owned(), reason, detail })
}

/// Whether `m` records the measurement of `path` with these figures under `options`.
pub open spec fn file_measurement(
    m: FileResult,
    path: Seq<char>,
    bytes: nat,
    decoded_lossily: bool,
    options: ScanOptions,
) -> bool {
    &&& m.path@ == path
    &&& m.language == spec_classify(path)
    &&& m.bytes == bytes
    &&& m.decoded_lossily == decoded_lossily
    &&& m.tokenizer == options.spec_count().spec_metadata()
    &&& options.spec_count().spec_text_policy().spec_describes(m.text_policy)
    &&& m.invalid_utf8 == options.spec_invalid_utf8()
}

/// A measured outcome for one path.
pub fn measured(path: &str, bytes: u64, tokens: u64, decoded_lossily: bool, options: &ScanOptions) -> (r: FileOutcome)
    ensures
        r matches FileOutcome::Measured(m) && file_measurement(
            m,
            path@,
            bytes as nat,
            decoded_lossily,
            *options,
        ) && m.tokens == tokens,
{
    FileOutcome::Measured(FileResult {
        language: classify(path),
        path: path.to_owned(),
        tokens,
        bytes,
        decoded_lossily,
        tokenizer: options.count.tokenizer().metadata_ref().clone(),
        text_policy: options.count.text_policy().metadata(),
        invalid_utf8: options.invalid_utf8,
    })
}

/// What to do once the metadata of the path itself (not following links) is
/// known; `None` means it could not be read.
pub fn plan_after_link_metadata(path: &str, link: Option<PathMetadata>, options: &ScanOptions) -> (r: FileStep)
    ensures
        match link {
            None => r matches FileStep::Done(FileOutcome::Skipped(s)) && s.path@ == path@ && s.reason
                == SkipReason::Unreadable && s.detail is None,
            Some(m) => if m.is_symlink {
                if options.spec_follow_symlinks() {
                    r == FileStep::FollowLink
                } else {
                    r matches FileStep::Done(FileOutcome::Skipped(s)) && s.path@ == path@
                        && s.reason == SkipReason::Symlink && s.detail is None
                }
            } else {
                plan_matches_target(r, path@, Some(m), *options)
            },
        },
{
    match link {
        None => FileStep::Done(skipped(path, SkipReason::Unreadable, None)),
        Some(m) => {
            if m.is_symlink {
                if options.follow_symlinks {
                    FileStep::FollowLink
                } else {
                    FileStep::Done(skipped(path, SkipReason::Symlink, None))
                }
            } else {
                plan_after_target_metadata(path, Some(m), options)
            }
        },
    }
}

/// Whether `r` is the step taken once the metadata of the measured target is known.
pub open spec fn plan_matches_target(r: FileStep, path: Seq<char>, target: Option<PathMetadata>, options: ScanOptions) -> bool {
    match target {
        None => r matches FileStep::Done(FileOutcome::Skipped(s)) && s.path@ == path && s.reason
            == SkipReason::Unreadable && s.detail is None,
        Some(m) => if !m.is_file {
            r matches FileStep::Done(FileOutcome::Skipped(s)) && s.path@ == path && s.reason
                == SkipReason::UnsupportedFilesystemType && s.detail is None
        } else if !options.spec_max_file_size().spec_admits(m.len as int) {
            r matches FileStep::Done(FileOutcome::Skipped(s)) && s.path@ == path && s.reason
                == SkipReason::Oversized && s.detail is None
        } else {
            r == FileStep::ReadContents(spec_snapshot(m))
        },
    }
}

/// What to do once the metadata of the file to measure is known; `None`
/// means it could not be read.
pub fn plan_after_target_metadata(path: &str, target: Option<PathMetadata>, options: &ScanOptions) -> (r: FileStep)
    ensures
        plan_matches_target(r, path@, target, *options),
{
    match target {
        None => FileStep::Done(skipped(path, SkipReason::Unreadable, None)),
        Some(m) => {
            if !m.is_file {
                FileStep::Done(skipped(path, SkipReason::UnsupportedFilesystemType, None))
            } else if !options.max_file_size.admits(m.len) {
                FileStep::Done(skipped(path, SkipReason::Oversized, None))
            } else {
                FileStep::ReadContents(snapshot_of(m))
            }
        },
    }
}

/// How many bytes to read from an input: one past a limit, so that an
/// oversized input is detected, or everything when unlimited.
pub fn read_allowance(max_file_size: MaxFileSize) -> (r: Option<u64>)
    ensures
        match max_file_size {
            MaxFileSize::Limited(limit) => r == Some(
                if limit == u64::MAX { u64::MAX } else { (limit + 1) as u64 },
            ),
            MaxFileSize::Unlimited => r is None,
        },
{
    match max_file_size {
        MaxFileSize::Limited(limit) => Some(limit.saturating_add(1)),
        MaxFileSize::Unlimited => None,
    }
}

/// Whether `r` is the outcome of measuring contents `b` read from `path`, with
/// the token count coming from `tokens` when it is stated.
pub open spec fn file_outcome_is(r: FileOutcome, path: Seq<char>, b: Seq<u8>, options: ScanOptions, tokens: Option<nat>) -> bool {
    match byte_skip(b, options) {
        Some(expected) => r matches FileOutcome::Skipped(s) && s.path@ == path && skip_is(
            s.reason,
            s.detail,
            expected,
        ),
        None => r matches FileOutcome::Measured(m) && file_measurement(
            m,
            path,
            b.len(),
            !valid_utf8(b),
            options,
        ) && (tokens matches Some(n) ==> m.tokens == n),
    }
}

/// The token count a measurement of `b` uses: a cached count recorded for the
/// same decoding, otherwise the count of the decoded text where it is stated.
pub open spec fn tokens_used(b: Seq<u8>, options: ScanOptions, cached: Option<CachedCount>) -> Option<nat> {
    match cached {
        Some(c) => if c.decoded_lossily == !valid_utf8(b) {
            Some(c.tokens as nat)
        } else {
            byte_tokens(b, options)
        },
        None => byte_tokens(b, options),
    }
}

/// A warm cache measures like a cold one: the count that a measurement without
/// a cache publishes for some bytes, given back for the same bytes and options,
/// makes the measurement use the count it would use without a cache (for a
/// backend whose count is stated).
pub proof fn law_warm_count_is_cold_count(
    o: FileOutcome,
    path: Seq<char>,
    b: Seq<u8>,
    options: ScanOptions,
    published: CachedCount,
)
    requires
        file_outcome_is(o, path, b, options, tokens_used(b, options, None)),
        o matches FileOutcome::Measured(m) && published == (CachedCount {
            tokens: m.tokens,
            decoded_lossily: m.decoded_lossily,
        }),
        byte_tokens(b, options) is Some,
    ensures
        tokens_used(b, options, Some(published)) == tokens_used(b, options, None),
{
}

/// Measure the contents read from `path` (`None` when they could not be read),
/// reusing `cached` when it was recorded for the same decoding. Also returns
/// the count to remember for this content, when it was measured.
pub fn count_file_contents(
    path: &str,
    contents: Option<Vec<u8>>,
    options: &ScanOptions,
    cached: Option<CachedCount>,
) -> (r: Result<(FileOutcome, Option<CachedCount>), CountError>)
    ensures
        match contents {
            None => r matches Ok((FileOutcome::Skipped(s), None)) && s.path@ == path@ && s.reason
                == SkipReason::Unreadable && s.detail is None,
            Some(b) => match r {
                Ok((outcome, publish)) => {
                    &&& file_outcome_is(outcome, path@, b@, *options, tokens_used(b@, *options, cached))
                    &&& match outcome {
                        FileOutcome::Measured(m) => publish == Some(
                            CachedCount { tokens: m.tokens, decoded_lossily: m.decoded_lossily },
                        ),
                        FileOutcome::Skipped(_) => publish is None,
                    }
                },
                Err(CountError::Tokenizer(e)) => options.spec_count().spec_tokenizer().spec_reports(e) && byte_tokens(b@, *options) is None
                    && byte_skip(b@, *options) is None,
            },
        },
{
    let bytes = match contents {
        Some(b) => b,
        None => {
            return Ok((skipped(path, SkipReason::Unreadable, None), None));
        },
    };
    match count_bytes_cached(bytes.as_slice(), options, cached) {
        Ok((ByteOutcome::Skipped(s), publish)) => Ok((skipped(path, s.reason, s.detail), publish)),
        Ok((ByteOutcome::Measured(m), publish)) => Ok(
            (measured(path, m.bytes, m.tokens, m.decoded_lossily, options), publish),
        ),
        Err(e) => Err(e),
    }
}

/// Whether the metadata observed after reading still identifies the version
/// that was read, so that the content hash may be recorded for it.
pub fn snapshot_still_current(before: MetadataSnapshot, now: Option<PathMetadata>) -> (r: bool)
    ensures
        r == (now matches Some(m) && spec_snapshot(m) == before),
{
    match now {
        Some(m) => m.len == before.size && m.modified_nanos == before.modified_nanos,
        None => false,
    }
}

} // verus!
