//! The command-line contract: argument values, their conversion to scan
//! options, and the decisions the command makes around a scan or comparison.

use vstd::prelude::*;

use crate::aggregate::{LanguageResult, ScanFileResult, ScanResult, ScanTotals, SkippedSummary};
use crate::cache::CachePolicy;
use crate::chars::{ascii_lower, ascii_lowercase, chars_eq_str, chars_of, concat, string_of, to_ascii_lowercase};
use crate::classify::Language;
use crate::count::CountOptions;
use crate::diff::DiffResult;
use crate::error::TokenizerError;
use crate::file::{
    ByteOutcome, ByteSkip, DEFAULT_MAX_FILE_SIZE, InvalidUtf8Policy, MaxFileSize, ScanOptions,
    SkipDetail, SkipReason,
};
use crate::text_policy::TextPolicy;
use crate::tokenizer::{BuiltinEncoding, HuggingFaceTokenCounter};
use crate::tokenizer::huggingface::artifact_problem;

verus! {

/// Output format of a report.
#[derive(Clone, Copy, Debug, PartialEq, Eq, Structural)]
pub enum OutputFormat {
    /// Aligned human-readable tables.
    Table,
    /// Machine-readable JSON.
    Json,
}

/// Order of per-file rows.
#[derive(Clone, Copy, Debug, PartialEq, Eq, Structural)]
pub enum SortField {
    /// By token count (or impact) descending, then path.
    Tokens,
    /// By path.
    Path,
    /// By language name, then path.
    Language,
}

/// A subcommand.
#[derive(Debug, PartialEq, Eq)]
pub enum CliCommand {
    /// Compare Git snapshots: `A..B` for two trees, or one revision against the worktree.
    Diff {
        /// The comparison expression.
        comparison: String,
        /// Path inside the repository.
        repository: String,
    },
}

/// A local tokenizer artifact named on the command line, with what reading it gave.
#[derive(Debug, PartialEq, Eq)]
pub struct TokenizerFile {
    /// The path as given.
    pub path: String,
    /// The artifact's bytes, or the reason it could not be read.
    pub contents: Result<Vec<u8>, String>,
}

/// Parsed command-line arguments.
#[derive(Debug, PartialEq, Eq)]
pub struct CliArgs {
    /// Files, directories, or `-` for stdin.
    pub paths: Vec<String>,
    /// Built-in exact encoding.
    pub encoding: Option<BuiltinEncoding>,
    /// Local Hugging Face tokenizer artifact.
    pub tokenizer_file: Option<TokenizerFile>,
    /// Remove a leading BOM and normalize line endings.
    pub normalize: bool,
    /// Invalid UTF-8 handling.
    pub invalid_utf8: InvalidUtf8Policy,
    /// Per-file rows instead of language totals.
    pub files: bool,
    /// Output format.
    pub format: OutputFormat,
    /// Order of per-file rows.
    pub sort: SortField,
    /// Globs of paths to keep.
    pub include_globs: Vec<String>,
    /// Globs of paths to leave out.
    pub exclude_globs: Vec<String>,
    /// Include hidden paths.
    pub hidden: bool,
    /// Disable ignore-file processing.
    pub no_ignore: bool,
    /// Follow symbolic links.
    pub follow: bool,
    /// Token budget.
    pub max_tokens: Option<u64>,
    /// Individual-file byte limit.
    pub max_file_size: MaxFileSize,
    /// Disable the persistent cache.
    pub no_cache: bool,
    /// Bound on concurrent file workers (positive).
    pub threads: Option<usize>,
    /// List skipped paths on stderr.
    pub verbose: bool,
    /// Suppress successful human-readable output.
    pub quiet: bool,
    /// Subcommand.
    pub command: Option<CliCommand>,
}

impl Default for CliArgs {
    /// The arguments of a bare invocation.
    fn default() -> (r: Self)
        ensures
            r.paths@.len() == 1,
            r.paths@[0]@ == "."@,
            r.encoding is None,
            r.tokenizer_file is None,
            !r.normalize,
            r.invalid_utf8 == InvalidUtf8Policy::Skip,
            !r.files,
            r.format == OutputFormat::Table,
            r.sort == SortField::Tokens,
            r.include_globs@.len() == 0,
            r.exclude_globs@.len() == 0,
            !r.hidden && !r.no_ignore && !r.follow,
            r.max_tokens is None,
            r.max_file_size == MaxFileSize::Limited(DEFAULT_MAX_FILE_SIZE),
            !r.no_cache,
            r.threads is None,
            !r.verbose && !r.quiet,
            r.command is None,
    {
        let mut paths: Vec<String> = Vec::new();
        paths.push(".".to_owned());
        CliArgs {
            paths,
            encoding: None,
            tokenizer_file: None,
            normalize: false,
            invalid_utf8: InvalidUtf8Policy::Skip,
            files: false,
            format: OutputFormat::Table,
            sort: SortField::Tokens,
            include_globs: Vec::new(),
            exclude_globs: Vec::new(),
            hidden: false,
            no_ignore: false,
            follow: false,
            max_tokens: None,
            max_file_size: MaxFileSize::Limited(DEFAULT_MAX_FILE_SIZE),
            no_cache: false,
            threads: None,
            verbose: false,
            quiet: false,
            command: None,
        }
    }
}

/// Where the inputs of a scan come from.
#[derive(Debug, PartialEq, Eq)]
pub enum InputMode {
    /// Files and directories.
    Filesystem(Vec<String>),
    /// Standard input.
    Stdin,
}

/// How many of the paths are `-`.
pub open spec fn dash_count(paths: Seq<String>) -> nat
    decreases paths.len(),
{
    if paths.len() == 0 {
        0
    } else {
        dash_count(paths.drop_last()) + if paths.last()@ == "-"@ { 1nat } else { 0nat }
    }
}

/// The message given when stdin is mixed with filesystem paths.
pub open spec fn mixed_stdin_message() -> Seq<char> {
    "stdin (`-`) cannot be combined with filesystem paths"@
}

/// The message given when both tokenizer selectors are named.
pub open spec fn selector_conflict_message() -> Seq<char> {
    "--encoding cannot be used with --tokenizer-file"@
}

/// Clone a list of strings.
pub fn clone_strings(v: &Vec<String>) -> (r: Vec<String>)
    ensures
        r@ == v@,
{
    let mut out: Vec<String> = Vec::new();
    let mut i: usize = 0;
    while i < v.len()
        invariant
            i <= v.len(),
            out@ == v@.take(i as int),
        decreases v.len() - i,
    {
        out.push(v[i].clone());
        assert(out@ =~= v@.take(i as int + 1));
        i += 1;
    }
    assert(v@.take(v.len() as int) =~= v@);
    out
}

/// Where the inputs come from: stdin when `-` is the only path, the filesystem
/// when no path is `-`; stdin mixed with other paths is a usage error.
pub fn input_mode(paths: &Vec<String>) -> (r: Result<InputMode, String>)
    ensures
        dash_count(paths@) == 0 ==> (r matches Ok(InputMode::Filesystem(p)) && p@ == paths@),
        dash_count(paths@) == 1 && paths@.len() == 1 ==> r matches Ok(InputMode::Stdin),
        dash_count(paths@) > 0 && !(dash_count(paths@) == 1 && paths@.len() == 1) ==> (r matches Err(
            m,
        ) && m@ == mixed_stdin_message()),
{
    let mut count: usize = 0;
    let mut i: usize = 0;
    assert(paths@.take(0) =~= Seq::<String>::empty());
    while i < paths.len()
        invariant
            i <= paths.len(),
            count == dash_count(paths@.take(i as int)),
            count <= i,
        decreases paths.len() - i,
    {
        assert(paths@.take(i as int + 1).drop_last() =~= paths@.take(i as int));
        if str_is_dash(paths[i].as_str()) {
            count += 1;
        }
        i += 1;
    }
    assert(paths@.take(paths.len() as int) =~= paths@);
    if count == 0 {
        return Ok(InputMode::Filesystem(clone_strings(paths)));
    }
    if count == 1 && paths.len() == 1 {
        return Ok(InputMode::Stdin);
    }
    Err("stdin (`-`) cannot be combined with filesystem paths".to_owned())
}

fn str_is_dash(s: &str) -> (r: bool)
    ensures
        r == (s@ == "-"@),
{
    crate::chars::str_eq(s, "-")
}

impl CliArgs {
    /// The tokenizer selectors exclude each other: naming both a built-in
    /// encoding and a tokenizer file is a usage error.
    pub fn check_tokenizer_selectors(&self) -> (r: Result<(), String>)
        ensures
            r is Err <==> (self.encoding is Some && self.tokenizer_file is Some),
            r matches Err(m) ==> m@ == selector_conflict_message(),
    {
        if self.encoding.is_some() && self.tokenizer_file.is_some() {
            Err("--encoding cannot be used with --tokenizer-file".to_owned())
        } else {
            Ok(())
        }
    }

    /// Where the inputs of this invocation come from.
    pub fn input_mode(&self) -> (r: Result<InputMode, String>)
        ensures
            dash_count(self.paths@) == 0 ==> (r matches Ok(InputMode::Filesystem(p)) && p@ == self.paths@),
            dash_count(self.paths@) == 1 && self.paths@.len() == 1 ==> r matches Ok(InputMode::Stdin),
            dash_count(self.paths@) > 0 && !(dash_count(self.paths@) == 1 && self.paths@.len() == 1)
                ==> (r matches Err(m) && m@ == mixed_stdin_message()),
    {
        input_mode(&self.paths)
    }

    /// The text policy these arguments select.
    pub open spec fn spec_text_policy(&self) -> TextPolicy {
        if self.normalize {
            TextPolicy::Normalized
        } else {
            TextPolicy::Literal
        }
    }

    /// Whether `o` carries every setting of these arguments besides the tokenizer.
    pub open spec fn configures(&self, o: ScanOptions) -> bool {
        &&& o.spec_count().spec_text_policy() == self.spec_text_policy()
        &&& o.spec_invalid_utf8() == self.invalid_utf8
        &&& o.spec_max_file_size() == self.max_file_size
        &&& o.spec_includes().len() == self.include_globs@.len()
        &&& forall|i: int| 0 <= i < self.include_globs@.len() ==> (#[trigger] o.spec_includes()[i])@
            == self.include_globs@[i]@
        &&& o.spec_excludes().len() == self.exclude_globs@.len()
        &&& forall|i: int| 0 <= i < self.exclude_globs@.len() ==> (#[trigger] o.spec_excludes()[i])@
            == self.exclude_globs@[i]@
        &&& o.spec_hidden() == self.hidden
        &&& o.spec_no_ignore() == self.no_ignore
        &&& o.spec_follow_symlinks() == self.follow
        &&& o.spec_workers() == self.threads
        &&& o.spec_cache() == (if self.no_cache { CachePolicy::Disabled } else { CachePolicy::Default })
    }

    /// Scan options for these arguments: the selected tokenizer (the built-in
    /// `o200k_base` when none is named) and every text, filter and limit setting.
    pub fn scan_options(&self) -> (r: Result<ScanOptions, TokenizerError>)
        requires
            self.threads matches Some(t) ==> t > 0,
        ensures
            match &self.tokenizer_file {
                None => (r matches Ok(o) && self.configures(o) && o.spec_count().uses_encoding(
                    match self.encoding {
                        Some(e) => e,
                        None => BuiltinEncoding::O200kBase,
                    },
                )),
                Some(tf) => match &tf.contents {
                    Err(m) => (r matches Err(TokenizerError::ArtifactRead { path, message }) && path@
                        == tf.path@ && message@ == m@),
                    Ok(bytes) => match artifact_problem(bytes@) {
                        None => (r matches Ok(o) && self.configures(o) && o.spec_count().spec_tokenizer() is HuggingFace
                            && HuggingFaceTokenCounter::spec_metadata_for(
                            tf.path@,
                            bytes@,
                            o.spec_count().spec_metadata(),
                        )),
                        Some(m) => (r matches Err(TokenizerError::ArtifactInvalid { path, message })
                            && path@ == tf.path@ && message@ == m),
                    },
                },
            },
    {
        let text_policy = if self.normalize {
            TextPolicy::Normalized
        } else {
            TextPolicy::Literal
        };
        let count = match &self.tokenizer_file {
            Some(tf) => match &tf.contents {
                Ok(bytes) => match CountOptions::for_tokenizer_file(tf.path.as_str(), bytes.as_slice()) {
                    Ok(c) => c,
                    Err(e) => {
                        return Err(e);
                    },
                },
                Err(m) => {
                    return Err(TokenizerError::ArtifactRead { path: tf.path.clone(), message: m.clone() });
                },
            },
            None => CountOptions::for_encoding(
                match self.encoding {
                    Some(e) => e,
                    None => BuiltinEncoding::O200kBase,
                },
            ),
        }.with_text_policy(text_policy);
        let ghost c0 = count;
        let mut options = ScanOptions::new(count).with_invalid_utf8(self.invalid_utf8).with_max_file_size(
            self.max_file_size,
        ).with_hidden(self.hidden).with_no_ignore(self.no_ignore).with_follow_symlinks(
            self.follow,
        ).with_cache_enabled(!self.no_cache);
        let mut i: usize = 0;
        while i < self.include_globs.len()
            invariant
                i <= self.include_globs@.len(),
                options.spec_includes().len() == i,
                forall|k: int| 0 <= k < i ==> (#[trigger] options.spec_includes()[k])@
                    == self.include_globs@[k]@,
                options.spec_excludes().len() == 0,
                options.spec_count() == c0,
                options.spec_invalid_utf8() == self.invalid_utf8,
                options.spec_max_file_size() == self.max_file_size,
                options.spec_hidden() == self.hidden,
                options.spec_no_ignore() == self.no_ignore,
                options.spec_follow_symlinks() == self.follow,
                options.spec_workers() is None,
                options.spec_cache() == (if self.no_cache { CachePolicy::Disabled } else { CachePolicy::Default }),
            decreases self.include_globs.len() - i,
        {
            options = options.with_include(self.include_globs[i].as_str());
            proof {
                assert forall|k: int| 0 <= k < i + 1 implies (#[trigger] options.spec_includes()[k])@
                    == self.include_globs@[k]@ by {
                    if k < i {
                        assert(options.spec_includes()[k] == options.spec_includes().drop_last()[k]);
                    }
                }
            }
            i += 1;
        }
        let mut j: usize = 0;
        while j < self.exclude_globs.len()
            invariant
                j <= self.exclude_globs@.len(),
                options.spec_excludes().len() == j,
                forall|k: int| 0 <= k < j ==> (#[trigger] options.spec_excludes()[k])@
                    == self.exclude_globs@[k]@,
                options.spec_includes().len() == self.include_globs@.len(),
                forall|k: int| 0 <= k < self.include_globs@.len() ==> (#[trigger] options.spec_includes()[k])@
                    == self.include_globs@[k]@,
                options.spec_count() == c0,
                options.spec_invalid_utf8() == self.invalid_utf8,
                options.spec_max_file_size() == self.max_file_size,
                options.spec_hidden() == self.hidden,
                options.spec_no_ignore() == self.no_ignore,
                options.spec_follow_symlinks() == self.follow,
                options.spec_workers() is None,
                options.spec_cache() == (if self.no_cache { CachePolicy::Disabled } else { CachePolicy::Default }),
            decreases self.exclude_globs.len() - j,
        {
            options = options.with_exclude(self.exclude_globs[j].as_str());
            proof {
                assert forall|k: int| 0 <= k < j + 1 implies (#[trigger] options.spec_excludes()[k])@
                    == self.exclude_globs@[k]@ by {
                    if k < j {
                        assert(options.spec_excludes()[k] == options.spec_excludes().drop_last()[k]);
                    }
                }
            }
            j += 1;
        }
        match self.threads {
            Some(t) => {
                options = options.with_workers(t);
            },
            None => {},
        }
        Ok(options)
    }
}

/// Whether a character is an ASCII decimal digit.
pub open spec fn is_digit(c: char) -> bool {
    '0' <= c && c <= '9'
}

/// Length of the leading run of ASCII digits.
pub open spec fn digit_run(s: Seq<char>) -> nat
    decreases s.len(),
{
    if s.len() == 0 || !is_digit(s[0]) {
        0
    } else {
        1 + digit_run(s.drop_first())
    }
}

/// The decimal value of a string of ASCII digits.
pub open spec fn decimal_value(s: Seq<char>) -> nat
    decreases s.len(),
{
    if s.len() == 0 {
        0
    } else {
        decimal_value(s.drop_last()) * 10 + ((s.last() as u32) - ('0' as u32)) as nat
    }
}

/// The byte multiplier of a lowercased file-size suffix.
pub open spec fn size_multiplier(suffix: Seq<char>) -> Option<nat> {
    if suffix == ""@ || suffix == "b"@ {
        Some(1)
    } else if suffix == "k"@ || suffix == "kb"@ || suffix == "kib"@ {
        Some(1024)
    } else if suffix == "m"@ || suffix == "mb"@ || suffix == "mib"@ {
        Some(1048576)
    } else if suffix == "g"@ || suffix == "gb"@ || suffix == "gib"@ {
        Some(1073741824)
    } else {
        None
    }
}

/// The message for a size without a leading number.
pub open spec fn size_shape_message() -> Seq<char> {
    "file size must be an integer followed by an optional K, M, or G suffix"@
}

/// The message for a size that does not fit.
pub open spec fn size_overflow_message() -> Seq<char> {
    "file size does not fit in u64"@
}

/// What a `--max-file-size` value means: `unlimited` (in any case), or an
/// integer with an optional binary suffix (B, K/KB/KiB, M/MB/MiB, G/GB/GiB, in
/// any case).
pub open spec fn spec_file_size(value: Seq<char>) -> Result<MaxFileSize, Seq<char>> {
    if ascii_lowercase(value) == "unlimited"@ {
        Ok(MaxFileSize::Unlimited)
    } else {
        let n = digit_run(value);
        let number = decimal_value(value.take(n as int));
        let suffix = value.skip(n as int);
        if n == 0 {
            Err(size_shape_message())
        } else if number > u64::MAX {
            Err(size_overflow_message())
        } else {
            match size_multiplier(ascii_lowercase(suffix)) {
                None => Err("unsupported file-size suffix: "@ + suffix),
                Some(m) => if number * m > u64::MAX {
                    Err(size_overflow_message())
                } else {
                    Ok(MaxFileSize::Limited((number * m) as u64))
                },
            }
        }
    }
}

/// Whether every character of `s` is an ASCII digit.
pub open spec fn all_digits(s: Seq<char>) -> bool {
    forall|i: int| 0 <= i < s.len() ==> is_digit(#[trigger] s[i])
}

proof fn lemma_digit_run_prefix(n: Seq<char>, suffix: Seq<char>)
    requires
        all_digits(n),
        suffix.len() == 0 || !is_digit(suffix[0]),
    ensures
        digit_run(n + suffix) == n.len(),
    decreases n.len(),
{
    if n.len() == 0 {
        assert(n + suffix =~= suffix);
    } else {
        assert((n + suffix).drop_first() =~= n.drop_first() + suffix);
        assert(all_digits(n.drop_first())) by {
            assert forall|i: int| 0 <= i < n.drop_first().len() implies is_digit(#[trigger] n.drop_first()[i]) by {
                assert(n.drop_first()[i] == n[i + 1]);
            }
        }
        assert((n + suffix)[0] == n[0]);
        lemma_digit_run_prefix(n.drop_first(), suffix);
    }
}

proof fn lemma_size_with_multiplier(n: Seq<char>, suffix: Seq<char>, m: nat)
    requires
        n.len() > 0,
        all_digits(n),
        suffix.len() == 0 || !is_digit(suffix[0]),
        size_multiplier(ascii_lowercase(suffix)) == Some(m),
        m >= 1,
        decimal_value(n) * m <= u64::MAX,
    ensures
        spec_file_size(n + suffix) == Ok::<MaxFileSize, Seq<char>>(MaxFileSize::Limited((decimal_value(n) * m) as u64)),
{
    reveal_strlit("unlimited");
    lemma_digit_run_prefix(n, suffix);
    let v = n + suffix;
    assert(v.take(n.len() as int) =~= n);
    assert(v.skip(n.len() as int) =~= suffix);
    assert(ascii_lowercase(v)[0] == ascii_lower(n[0]));
    assert(ascii_lowercase(v) != "unlimited"@) by {
        assert("unlimited"@[0] == 'u');
    }
    assert(decimal_value(n) <= decimal_value(n) * m) by (nonlinear_arith)
        requires
            m >= 1,
    ;
}

/// File sizes take binary suffixes in any ASCII case: digits `n` followed by
/// nothing or `B` mean `n` bytes, by `K`, `KB` or `KiB` mean `n * 2^10`, by `M`,
/// `MB` or `MiB` mean `n * 2^20`, and by `G`, `GB` or `GiB` mean `n * 2^30`,
/// whenever that fits in `u64`.
pub proof fn law_binary_size_suffixes(n: Seq<char>, suffix: Seq<char>)
    requires
        n.len() > 0,
        all_digits(n),
    ensures
        (ascii_lowercase(suffix) == ""@ || ascii_lowercase(suffix) == "b"@) && decimal_value(n) <= u64::MAX
            ==> spec_file_size(n + suffix) == Ok::<MaxFileSize, Seq<char>>(MaxFileSize::Limited(decimal_value(n) as u64)),
        (ascii_lowercase(suffix) == "k"@ || ascii_lowercase(suffix) == "kb"@ || ascii_lowercase(suffix) == "kib"@)
            && decimal_value(n) * 1024 <= u64::MAX ==> spec_file_size(n + suffix) == Ok::<MaxFileSize, Seq<char>>(
            MaxFileSize::Limited((decimal_value(n) * 1024) as u64),
        ),
        (ascii_lowercase(suffix) == "m"@ || ascii_lowercase(suffix) == "mb"@ || ascii_lowercase(suffix) == "mib"@)
            && decimal_value(n) * 1048576 <= u64::MAX ==> spec_file_size(n + suffix) == Ok::<MaxFileSize, Seq<char>>(
            MaxFileSize::Limited((decimal_value(n) * 1048576) as u64),
        ),
        (ascii_lowercase(suffix) == "g"@ || ascii_lowercase(suffix) == "gb"@ || ascii_lowercase(suffix) == "gib"@)
            && decimal_value(n) * 1073741824 <= u64::MAX ==> spec_file_size(n + suffix) == Ok::<MaxFileSize, Seq<char>>(
            MaxFileSize::Limited((decimal_value(n) * 1073741824) as u64),
        ),
{
    reveal_strlit("");
    reveal_strlit("b");
    reveal_strlit("k");
    reveal_strlit("kb");
    reveal_strlit("kib");
    reveal_strlit("m");
    reveal_strlit("mb");
    reveal_strlit("mib");
    reveal_strlit("g");
    reveal_strlit("gb");
    reveal_strlit("gib");
    let l = ascii_lowercase(suffix);
    assert("b"@[0] == 'b' && "k"@[0] == 'k' && "kb"@[0] == 'k' && "kib"@[0] == 'k');
    assert("m"@[0] == 'm' && "mb"@[0] == 'm' && "mib"@[0] == 'm');
    assert("g"@[0] == 'g' && "gb"@[0] == 'g' && "gib"@[0] == 'g');
    assert(l.len() == suffix.len());
    assert(""@.len() == 0 && "b"@.len() == 1 && "k"@.len() == 1 && "m"@.len() == 1 && "g"@.len() == 1);
    if suffix.len() > 0 {
        assert(l[0] == ascii_lower(suffix[0]));
        if is_digit(suffix[0]) {
            assert(l[0] == suffix[0]);
        }
    }
    if (l == ""@ || l == "b"@) && decimal_value(n) <= u64::MAX {
        assert(suffix.len() == 0 || !is_digit(suffix[0]));
        assert(size_multiplier(l) == Some(1nat));
        lemma_size_with_multiplier(n, suffix, 1);
    }
    if (l == "k"@ || l == "kb"@ || l == "kib"@) && decimal_value(n) * 1024 <= u64::MAX {
        assert(suffix.len() > 0 && !is_digit(suffix[0]));
        assert(l != ""@ && l != "b"@);
        assert(size_multiplier(l) == Some(1024nat));
        lemma_size_with_multiplier(n, suffix, 1024);
    }
    if (l == "m"@ || l == "mb"@ || l == "mib"@) && decimal_value(n) * 1048576 <= u64::MAX {
        assert(suffix.len() > 0 && !is_digit(suffix[0]));
        assert(l != ""@ && l != "b"@ && l != "k"@ && l != "kb"@ && l != "kib"@);
        assert(size_multiplier(l) == Some(1048576nat));
        lemma_size_with_multiplier(n, suffix, 1048576);
    }
    if (l == "g"@ || l == "gb"@ || l == "gib"@) && decimal_value(n) * 1073741824 <= u64::MAX {
        assert(suffix.len() > 0 && !is_digit(suffix[0]));
        assert(l != ""@ && l != "b"@ && l != "k"@ && l != "kb"@ && l != "kib"@ && l != "m"@ && l != "mb"@
            && l != "mib"@);
        assert(size_multiplier(l) == Some(1073741824nat));
        lemma_size_with_multiplier(n, suffix, 1073741824);
    }
}

proof fn lemma_digit_run_bound(s: Seq<char>)
    ensures
        digit_run(s) <= s.len(),
        forall|i: int| 0 <= i < digit_run(s) ==> is_digit(#[trigger] s[i]),
        digit_run(s) < s.len() ==> !is_digit(s[digit_run(s) as int]),
    decreases s.len(),
{
    if s.len() > 0 && is_digit(s[0]) {
        lemma_digit_run_bound(s.drop_first());
        assert forall|i: int| 0 <= i < digit_run(s) implies is_digit(#[trigger] s[i]) by {
            if i > 0 {
                assert(s[i] == s.drop_first()[i - 1]);
            }
        }
    }
}

proof fn lemma_digit_run_exact(s: Seq<char>, n: int)
    requires
        0 <= n <= s.len(),
        forall|i: int| 0 <= i < n ==> is_digit(#[trigger] s[i]),
        n < s.len() ==> !is_digit(s[n]),
    ensures
        digit_run(s) == n,
    decreases s.len(),
{
    if n > 0 {
        assert forall|i: int| 0 <= i < n - 1 implies is_digit(#[trigger] s.drop_first()[i]) by {
            assert(s.drop_first()[i] == s[i + 1]);
        }
        lemma_digit_run_exact(s.drop_first(), n - 1);
    }
}

proof fn lemma_decimal_monotone(s: Seq<char>, i: int, j: int)
    requires
        0 <= i <= j <= s.len(),
        forall|k: int| 0 <= k < s.len() ==> is_digit(#[trigger] s[k]),
    ensures
        decimal_value(s.take(i)) <= decimal_value(s.take(j)),
    decreases j - i,
{
    if i < j {
        lemma_decimal_monotone(s, i, j - 1);
        assert(s.take(j).drop_last() =~= s.take(j - 1));
    }
}

/// Parse a `--max-file-size` value.
pub fn parse_file_size(value: &str) -> (r: Result<MaxFileSize, String>)
    ensures
        match spec_file_size(value@) {
            Ok(m) => r == Ok::<MaxFileSize, String>(m),
            Err(e) => (r matches Err(m) && m@ == e),
        },
{
    let chars = chars_of(value);
    let lower = to_ascii_lowercase(chars.as_slice());
    if chars_eq_str(lower.as_slice(), "unlimited") {
        return Ok(MaxFileSize::Unlimited);
    }
    let ghost v = value@;
    let mut n: usize = 0;
    while n < chars.len() && '0' <= chars[n] && chars[n] <= '9'
        invariant
            chars@ == v,
            n <= chars.len(),
            forall|i: int| 0 <= i < n ==> is_digit(#[trigger] v[i]),
        decreases chars.len() - n,
    {
        n += 1;
    }
    proof {
        lemma_digit_run_exact(v, n as int);
    }
    if n == 0 {
        return Err("file size must be an integer followed by an optional K, M, or G suffix".to_owned());
    }
    let ghost digits = v.take(n as int);
    let mut number: u64 = 0;
    let mut k: usize = 0;
    assert(digits.take(0) =~= Seq::<char>::empty());
    while k < n
        invariant
            chars@ == v,
            digits == v.take(n as int),
            0 < n <= chars.len(),
            k <= n,
            forall|i: int| 0 <= i < n ==> is_digit(#[trigger] v[i]),
            number == decimal_value(digits.take(k as int)),
            ascii_lowercase(v) != "unlimited"@,
            digit_run(v) == n,
            v == value@,
        decreases n - k,
    {
        proof {
            assert(digits.take(k as int + 1).drop_last() =~= digits.take(k as int));
            assert(digits.take(k as int + 1).last() == v[k as int]);
            assert(is_digit(v[k as int]));
        }
        let d = (chars[k] as u32 - '0' as u32) as u64;
        assert(decimal_value(digits.take(k as int + 1)) == decimal_value(digits.take(k as int)) * 10 + d);
        match number.checked_mul(10) {
            Some(t) => match t.checked_add(d) {
                Some(u) => {
                    number = u;
                },
                None => {
                    proof {
                        assert forall|i: int| 0 <= i < digits.len() implies is_digit(#[trigger] digits[i]) by {
                            assert(digits[i] == v[i]);
                        }
                        lemma_decimal_monotone(digits, k as int + 1, n as int);
                        assert(digits.take(n as int) =~= digits);
                    }
                    return Err("file size does not fit in u64".to_owned());
                },
            },
            None => {
                proof {
                    assert forall|i: int| 0 <= i < digits.len() implies is_digit(#[trigger] digits[i]) by {
                        assert(digits[i] == v[i]);
                    }
                    lemma_decimal_monotone(digits, k as int + 1, n as int);
                    assert(digits.take(n as int) =~= digits);
                }
                return Err("file size does not fit in u64".to_owned());
            },
        }
        k += 1;
    }
    assert(digits.take(n as int) =~= digits);
    let suffix = string_of(&chars.as_slice()[n..chars.len()]);
    assert(suffix@ =~= v.skip(n as int));
    let suffix_chars = chars_of(suffix.as_str());
    let s = to_ascii_lowercase(suffix_chars.as_slice());
    let multiplier: u64 = if chars_eq_str(s.as_slice(), "") || chars_eq_str(s.as_slice(), "b") {
        1
    } else if chars_eq_str(s.as_slice(), "k") || chars_eq_str(s.as_slice(), "kb") || chars_eq_str(
        s.as_slice(),
        "kib",
    ) {
        1024
    } else if chars_eq_str(s.as_slice(), "m") || chars_eq_str(s.as_slice(), "mb") || chars_eq_str(
        s.as_slice(),
        "mib",
    ) {
        1048576
    } else if chars_eq_str(s.as_slice(), "g") || chars_eq_str(s.as_slice(), "gb") || chars_eq_str(
        s.as_slice(),
        "gib",
    ) {
        1073741824
    } else {
        return Err(concat("unsupported file-size suffix: ", suffix.as_str()));
    };
    match number.checked_mul(multiplier) {
        Some(bytes) => Ok(MaxFileSize::Limited(bytes)),
        None => Err("file size does not fit in u64".to_owned()),
    }
}

/// Parse an `--encoding` value.
pub fn parse_encoding(value: &str) -> (r: Result<BuiltinEncoding, String>)
    ensures
        match BuiltinEncoding::spec_parse(value@) {
            Some(e) => r == Ok::<BuiltinEncoding, String>(e),
            None => (r matches Err(m) && m@ == "unsupported encoding: "@ + value@),
        },
{
    match BuiltinEncoding::parse(value) {
        Ok(e) => Ok(e),
        Err(e) => Err(e.message()),
    }
}

/// The first position at or after `i` where `..` occurs.
pub open spec fn dots_from(s: Seq<char>, i: int) -> Option<int>
    decreases s.len() - i,
{
    if i < 0 || i + 1 >= s.len() {
        None
    } else if s[i] == '.' && s[i + 1] == '.' {
        Some(i)
    } else {
        dots_from(s, i + 1)
    }
}

/// Which Git snapshots a `diff` compares.
#[derive(Debug, PartialEq, Eq)]
pub enum Comparison {
    /// Two committed trees, `base..head`.
    Trees {
        /// Base revision.
        base: String,
        /// Head revision.
        head: String,
    },
    /// A committed tree against the current worktree.
    Worktree {
        /// Base revision.
        base: String,
    },
}

/// The message for a malformed `A..B` comparison.
pub open spec fn tree_range_message() -> Seq<char> {
    "Git tree comparison must use non-empty A..B revisions"@
}

/// The message for an empty comparison.
pub open spec fn empty_base_message() -> Seq<char> {
    "Git base revision cannot be empty"@
}

/// What a comparison expression means: `A..B` splits at the first `..` and
/// needs a non-empty base and a non-empty head that neither starts with `.`
/// nor holds another `..`; anything else is one revision against the worktree.
pub open spec fn spec_comparison(s: Seq<char>) -> Result<(Seq<char>, Option<Seq<char>>), Seq<char>> {
    match dots_from(s, 0) {
        Some(i) => {
            let base = s.take(i);
            let head = s.skip(i + 2);
            if base.len() == 0 || head.len() == 0 || head[0] == '.' || dots_from(head, 0) is Some {
                Err(tree_range_message())
            } else {
                Ok((base, Some(head)))
            }
        },
        None => if s.len() == 0 {
            Err(empty_base_message())
        } else {
            Ok((s, None))
        },
    }
}

/// The first position at or after `from` where `..` occurs.
fn find_dots(s: &Vec<char>, from: usize) -> (r: Option<usize>)
    requires
        from <= s.len(),
    ensures
        match r {
            Some(i) => dots_from(s@, from as int) == Some(i as int) && i + 1 < s.len(),
            None => dots_from(s@, from as int) is None,
        },
    decreases s.len() - from,
{
    if s.len() - from < 2 {
        None
    } else if s[from] == '.' && s[from + 1] == '.' {
        Some(from)
    } else {
        find_dots(s, from + 1)
    }
}

/// Parse the comparison expression of `diff`.
pub fn parse_comparison(comparison: &str) -> (r: Result<Comparison, String>)
    ensures
        match spec_comparison(comparison@) {
            Ok((base, Some(head))) => (r matches Ok(Comparison::Trees { base: b, head: h }) && b@ == base
                && h@ == head),
            Ok((base, None)) => (r matches Ok(Comparison::Worktree { base: b }) && b@ == base),
            Err(m) => (r matches Err(e) && e@ == m),
        },
{
    let s = chars_of(comparison);
    match find_dots(&s, 0) {
        Some(i) => {
            let base = string_of(&s.as_slice()[0..i]);
            let head_chars = slice_to_vec(&s.as_slice()[i + 2..s.len()]);
            proof {
                assert(base@ =~= s@.take(i as int));
                assert(head_chars@ =~= s@.skip(i as int + 2));
            }
            let dots_in_head = find_dots(&head_chars, 0);
            if i == 0 || head_chars.len() == 0 || head_chars[0] == '.' || dots_in_head.is_some() {
                return Err("Git tree comparison must use non-empty A..B revisions".to_owned());
            }
            let head = string_of(head_chars.as_slice());
            Ok(Comparison::Trees { base, head })
        },
        None => {
            if s.len() == 0 {
                Err("Git base revision cannot be empty".to_owned())
            } else {
                Ok(Comparison::Worktree { base: comparison.to_owned() })
            }
        },
    }
}

fn slice_to_vec(s: &[char]) -> (r: Vec<char>)
    ensures
        r@ == s@,
{
    let mut out: Vec<char> = Vec::new();
    let mut i: usize = 0;
    while i < s.len()
        invariant
            i <= s.len(),
            out@ == s@.take(i as int),
        decreases s.len() - i,
    {
        out.push(s[i]);
        assert(out@ =~= s@.take(i as int + 1));
        i += 1;
    }
    assert(s@.take(s.len() as int) =~= s@);
    out
}

impl Comparison {
    /// The names under which the two compared snapshots are reported.
    pub fn snapshot_names(&self) -> (r: (String, String))
        ensures
            match self {
                Comparison::Trees { base, head } => r.0@ == base@ && r.1@ == head@,
                Comparison::Worktree { base } => r.0@ == base@ && r.1@ == "worktree"@,
            },
    {
        match self {
            Comparison::Trees { base, head } => (base.clone(), head.clone()),
            Comparison::Worktree { base } => (base.clone(), "worktree".to_owned()),
        }
    }
}

/// A failure of the command, with the exit status it maps to.
#[derive(Debug, PartialEq, Eq)]
pub enum CliError {
    /// The invocation was malformed.
    Usage(String),
    /// The work itself failed.
    Operational(String),
}

impl CliError {
    /// The process exit status: 2 for usage errors, 1 for operational ones.
    pub fn exit_code(&self) -> (r: u8)
        ensures
            r == (match self {
                CliError::Usage(_) => 2u8,
                CliError::Operational(_) => 1u8,
            }),
    {
        match self {
            CliError::Usage(_) => 2,
            CliError::Operational(_) => 1,
        }
    }

    /// The message printed for this error.
    pub fn message(&self) -> (r: &str)
        ensures
            r@ == (match self {
                CliError::Usage(m) => m@,
                CliError::Operational(m) => m@,
            }),
    {
        match self {
            CliError::Usage(m) => m.as_str(),
            CliError::Operational(m) => m.as_str(),
        }
    }
}

/// Exit status when the measured tokens exceed the budget.
pub const BUDGET_EXIT_CODE: u8 = 3;

/// A finished comparison with the names of its snapshots.
#[derive(Debug, PartialEq, Eq)]
pub struct DiffExecution {
    /// Name of the base snapshot.
    pub base: String,
    /// Name of the head snapshot.
    pub head: String,
    /// The comparison.
    pub result: DiffResult,
}

/// What a successful invocation produced.
#[derive(Debug, PartialEq, Eq)]
pub enum Execution {
    /// A scan of files or stdin.
    Scan(ScanResult),
    /// A comparison of snapshots.
    Diff(DiffExecution),
}

impl Execution {
    /// The tokens held against the budget: a scan's total, or the head total of a comparison.
    pub open spec fn spec_measured_tokens(&self) -> u64 {
        match self {
            Execution::Scan(s) => s.totals.tokens,
            Execution::Diff(d) => d.result.head.tokens,
        }
    }

    /// The tokens held against the budget.
    pub fn measured_tokens(&self) -> (r: u64)
        ensures
            r == self.spec_measured_tokens(),
    {
        match self {
            Execution::Scan(s) => s.totals.tokens,
            Execution::Diff(d) => d.result.head.tokens,
        }
    }
}

/// By how much the measured tokens exceed the budget, if they do.
pub fn budget_overrun(measured: u64, budget: Option<u64>) -> (r: Option<u64>)
    ensures
        match budget {
            Some(b) => if measured > b { r == Some((measured - b) as u64) } else { r is None },
            None => r is None,
        },
{
    match budget {
        Some(b) => if measured > b {
            Some(measured - b)
        } else {
            None
        },
        None => None,
    }
}

/// Whether the per-reason counters of `s` count one skip with `reason`, or
/// none when `reason` is `None`.
pub open spec fn reason_counts(s: SkippedSummary, reason: Option<SkipReason>) -> bool {
    &&& s.binary == (if reason == Some(SkipReason::Binary) { 1u64 } else { 0u64 })
    &&& s.oversized == (if reason == Some(SkipReason::Oversized) { 1u64 } else { 0u64 })
    &&& s.invalid_utf8 == (if reason == Some(SkipReason::InvalidUtf8) { 1u64 } else { 0u64 })
    &&& s.unsupported_encoding == (if reason == Some(SkipReason::UnsupportedEncoding) { 1u64 } else { 0u64 })
    &&& s.unreadable == (if reason == Some(SkipReason::Unreadable) { 1u64 } else { 0u64 })
    &&& s.unsupported_filesystem_type == (if reason == Some(SkipReason::UnsupportedFilesystemType) {
        1u64
    } else {
        0u64
    })
    &&& s.symlink == (if reason == Some(SkipReason::Symlink) { 1u64 } else { 0u64 })
}

/// The skip summary of a stdin input that was skipped.
pub fn stdin_skip_summary(skip: ByteSkip) -> (r: SkippedSummary)
    ensures
        r.total == 1,
        r.details@.len() == 1,
        r.details@[0].path@ == "-"@,
        r.details@[0].reason == skip.reason,
        r.details@[0].detail == skip.detail,
        r.binary == (if skip.reason == SkipReason::Binary { 1u64 } else { 0u64 }),
        r.oversized == (if skip.reason == SkipReason::Oversized { 1u64 } else { 0u64 }),
        r.invalid_utf8 == (if skip.reason == SkipReason::InvalidUtf8 { 1u64 } else { 0u64 }),
        r.unsupported_encoding == (if skip.reason == SkipReason::UnsupportedEncoding { 1u64 } else { 0u64 }),
        r.unreadable == (if skip.reason == SkipReason::Unreadable { 1u64 } else { 0u64 }),
        r.unsupported_filesystem_type == (if skip.reason == SkipReason::UnsupportedFilesystemType { 1u64 } else { 0u64 }),
        r.symlink == (if skip.reason == SkipReason::Symlink { 1u64 } else { 0u64 }),
{
    let reason = skip.reason;
    let mut details: Vec<SkipDetail> = Vec::new();
    details.push(SkipDetail { path: "-".to_owned(), reason, detail: skip.detail });
    let mut summary = SkippedSummary {
        total: 1,
        binary: 0,
        oversized: 0,
        invalid_utf8: 0,
        unsupported_encoding: 0,
        unreadable: 0,
        unsupported_filesystem_type: 0,
        symlink: 0,
        details,
    };
    match reason {
        SkipReason::Binary => summary.binary = 1,
        SkipReason::Oversized => summary.oversized = 1,
        SkipReason::InvalidUtf8 => summary.invalid_utf8 = 1,
        SkipReason::UnsupportedEncoding => summary.unsupported_encoding = 1,
        SkipReason::Unreadable => summary.unreadable = 1,
        SkipReason::UnsupportedFilesystemType => summary.unsupported_filesystem_type = 1,
        SkipReason::Symlink => summary.symlink = 1,
    }
    summary
}

/// The scan result for one stdin input: a measured input is one file `-` of
/// unknown language; a skipped one is an empty scan that records the skip.
pub fn stdin_result(outcome: ByteOutcome, options: &ScanOptions) -> (r: ScanResult)
    ensures
        match outcome {
            ByteOutcome::Measured(m) => {
                &&& r.tokenizer == m.tokenizer
                &&& r.text_policy == m.text_policy
                &&& r.invalid_utf8 == m.invalid_utf8
                &&& r.totals == (ScanTotals { files: 1, tokens: m.tokens, bytes: m.bytes })
                &&& r.languages@ == seq![LanguageResult { name: Language::Unknown, files: 1, tokens: m.tokens, bytes: m.bytes }]
                &&& r.files@.len() == 1
                &&& r.files@[0].path@ == "-"@
                &&& r.files@[0].language == Language::Unknown
                &&& r.files@[0].tokens == m.tokens
                &&& r.files@[0].bytes == m.bytes
                &&& r.files@[0].decoded_lossily == m.decoded_lossily
                &&& r.skipped.total == 0
                &&& r.skipped.details@.len() == 0
                &&& reason_counts(r.skipped, None)
            },
            ByteOutcome::Skipped(skip) => {
                &&& r.tokenizer == options.spec_count().spec_metadata()
                &&& options.spec_count().spec_text_policy().spec_describes(r.text_policy)
                &&& r.invalid_utf8 == options.spec_invalid_utf8()
                &&& r.totals == (ScanTotals { files: 0, tokens: 0, bytes: 0 })
                &&& r.languages@.len() == 0
                &&& r.files@.len() == 0
                &&& r.skipped.total == 1
                &&& r.skipped.details@.len() == 1
                &&& r.skipped.details@[0].path@ == "-"@
                &&& r.skipped.details@[0].reason == skip.reason
                &&& r.skipped.details@[0].detail == skip.detail
                &&& reason_counts(r.skipped, Some(skip.reason))
            },
        },
{
    match outcome {
        ByteOutcome::Measured(m) => {
            let mut languages: Vec<LanguageResult> = Vec::new();
            languages.push(LanguageResult { name: Language::Unknown, files: 1, tokens: m.tokens, bytes: m.bytes });
            let mut files: Vec<ScanFileResult> = Vec::new();
            files.push(
                ScanFileResult {
                    path: "-".to_owned(),
                    language: Language::Unknown,
                    tokens: m.tokens,
                    bytes: m.bytes,
                    decoded_lossily: m.decoded_lossily,
                },
            );
            assert(languages@ =~= seq![LanguageResult { name: Language::Unknown, files: 1, tokens: m.tokens, bytes: m.bytes }]);
            ScanResult {
                tokenizer: m.tokenizer,
                text_policy: m.text_policy,
                invalid_utf8: m.invalid_utf8,
                totals: ScanTotals { files: 1, tokens: m.tokens, bytes: m.bytes },
                languages,
                files,
                skipped: SkippedSummary::default(),
            }
        },
        ByteOutcome::Skipped(skip) => ScanResult {
            tokenizer: options.count_options().tokenizer().metadata_ref().clone(),
            text_policy: options.count_options().text_policy().metadata(),
            invalid_utf8: options.invalid_utf8(),
            totals: ScanTotals { files: 0, tokens: 0, bytes: 0 },
            languages: Vec::new(),
            files: Vec::new(),
            skipped: stdin_skip_summary(skip),
        },
    }
}

} // verus!
