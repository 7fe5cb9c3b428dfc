//! Deterministic scan aggregation.

use vstd::prelude::*;

use crate::chars::chars_of;
use crate::classify::{LANGUAGE_COUNT, Language, lemma_language_rank_injective};
use crate::error::ScanError;
use crate::file::{FileResult, InvalidUtf8Policy, ScanOptions, SkipDetail, SkipReason};
use crate::path::{chars_order, compare_chars, compare_paths, path_order};
use crate::sort::{SortKey, stable_sort, stable_sorted};
use crate::text_policy::TextPolicyMetadata;
use crate::tokenizer::TokenizerMetadata;

verus! {

/// Totals across all measured files.
#[derive(Clone, Copy, Debug, PartialEq, Eq, Structural)]
pub struct ScanTotals {
    /// Number of measured logical files.
    pub files: u64,
    /// Sum of file token counts.
    pub tokens: u64,
    /// Sum of original file sizes.
    pub bytes: u64,
}

impl Default for ScanTotals {
    fn default() -> (r: Self)
        ensures
            r == (ScanTotals { files: 0, tokens: 0, bytes: 0 }),
    {
        ScanTotals { files: 0, tokens: 0, bytes: 0 }
    }
}

/// Aggregate totals for one classified language family.
#[derive(Clone, Copy, Debug, PartialEq, Eq, Structural)]
pub struct LanguageResult {
    /// Language or text family.
    pub name: Language,
    /// Number of measured files in this family.
    pub files: u64,
    /// Sum of token counts in this family.
    pub tokens: u64,
    /// Sum of original file sizes in this family.
    pub bytes: u64,
}

/// Compact per-file entry returned by a recursive scan.
#[derive(Debug, PartialEq, Eq)]
pub struct ScanFileResult {
    /// Original discovered path.
    pub path: String,
    /// Path-based language classification.
    pub language: Language,
    /// Exact tokenizer count.
    pub tokens: u64,
    /// Original file size in bytes.
    pub bytes: u64,
    /// Whether invalid bytes were replaced before tokenization.
    pub decoded_lossily: bool,
}

impl Clone for ScanFileResult {
    fn clone(&self) -> (r: Self)
        ensures
            r == *self,
    {
        ScanFileResult {
            path: self.path.clone(),
            language: self.language,
            tokens: self.tokens,
            bytes: self.bytes,
            decoded_lossily: self.decoded_lossily,
        }
    }
}

/// The compact entry of a file measurement.
pub open spec fn spec_scan_file(f: FileResult) -> ScanFileResult {
    ScanFileResult {
        path: f.path,
        language: f.language,
        tokens: f.tokens,
        bytes: f.bytes,
        decoded_lossily: f.decoded_lossily,
    }
}

impl ScanFileResult {
    /// The compact entry of a file measurement.
    pub fn from_file(result: &FileResult) -> (r: Self)
        ensures
            r == spec_scan_file(*result),
    {
        ScanFileResult {
            path: result.path.clone(),
            language: result.language,
            tokens: result.tokens,
            bytes: result.bytes,
            decoded_lossily: result.decoded_lossily,
        }
    }
}

impl SortKey for ScanFileResult {
    open spec fn spec_after(&self, other: &Self) -> bool {
        path_order(self.path@, other.path@) > 0
    }

    fn after(&self, other: &Self) -> (r: bool) {
        compare_paths(self.path.as_str(), other.path.as_str()) > 0
    }
}

impl SortKey for SkipDetail {
    open spec fn spec_after(&self, other: &Self) -> bool {
        path_order(self.path@, other.path@) > 0 || (path_order(self.path@, other.path@) == 0
            && self.reason.rank() > other.reason.rank())
    }

    fn after(&self, other: &Self) -> (r: bool) {
        let c = compare_paths(self.path.as_str(), other.path.as_str());
        c > 0 || (c == 0 && self.reason.index() > other.reason.index())
    }
}

impl SortKey for LanguageResult {
    open spec fn spec_after(&self, other: &Self) -> bool {
        self.tokens < other.tokens || (self.tokens == other.tokens && chars_order(
            self.name.spec_name(),
            other.name.spec_name(),
        ) > 0)
    }

    fn after(&self, other: &Self) -> (r: bool) {
        if self.tokens != other.tokens {
            self.tokens < other.tokens
        } else {
            let a = chars_of(self.name.as_str());
            let b = chars_of(other.name.as_str());
            compare_chars(a.as_slice(), b.as_slice()) > 0
        }
    }
}

/// Aggregate and detailed accounting for omitted paths.
#[derive(Debug, PartialEq, Eq)]
pub struct SkippedSummary {
    /// Total number of skipped paths.
    pub total: u64,
    /// Binary paths.
    pub binary: u64,
    /// Paths exceeding the file-size limit.
    pub oversized: u64,
    /// Paths rejected as invalid UTF-8.
    pub invalid_utf8: u64,
    /// Paths with a recognizable unsupported encoding.
    pub unsupported_encoding: u64,
    /// Paths that could not be read.
    pub unreadable: u64,
    /// Paths that were not regular files.
    pub unsupported_filesystem_type: u64,
    /// Symbolic links not followed by policy.
    pub symlink: u64,
    /// Deterministically ordered per-path details.
    pub details: Vec<SkipDetail>,
}

impl Default for SkippedSummary {
    fn default() -> (r: Self)
        ensures
            r.total == 0 && r.binary == 0 && r.oversized == 0 && r.invalid_utf8 == 0
                && r.unsupported_encoding == 0 && r.unreadable == 0
                && r.unsupported_filesystem_type == 0 && r.symlink == 0 && r.details@.len() == 0,
    {
        SkippedSummary {
            total: 0,
            binary: 0,
            oversized: 0,
            invalid_utf8: 0,
            unsupported_encoding: 0,
            unreadable: 0,
            unsupported_filesystem_type: 0,
            symlink: 0,
            details: Vec::new(),
        }
    }
}

/// Clone a list of skip details.
pub fn clone_details(v: &Vec<SkipDetail>) -> (r: Vec<SkipDetail>)
    ensures
        r@ == v@,
{
    let mut out: Vec<SkipDetail> = Vec::new();
    let mut i: usize = 0;
    while i < v.len()
        invariant
            i <= v.len(),
            out@ == v@.take(i as int),
        decreases v.len() - i,
    {
        out.push(v[i].clone());
        assert(out@ =~= v@.take(i as int + 1));
        i += 1;
    }
    assert(v@.take(v.len() as int) =~= v@);
    out
}

impl SkippedSummary {
    /// Whether two summaries hold the same counts and the same details.
    pub open spec fn same_as(&self, other: &SkippedSummary) -> bool {
        &&& self.total == other.total
        &&& self.binary == other.binary
        &&& self.oversized == other.oversized
        &&& self.invalid_utf8 == other.invalid_utf8
        &&& self.unsupported_encoding == other.unsupported_encoding
        &&& self.unreadable == other.unreadable
        &&& self.unsupported_filesystem_type == other.unsupported_filesystem_type
        &&& self.symlink == other.symlink
        &&& self.details@ == other.details@
    }
}

impl Clone for SkippedSummary {
    fn clone(&self) -> (r: Self)
        ensures
            r.same_as(self),
    {
        let details = clone_details(&self.details);
        SkippedSummary {
            total: self.total,
            binary: self.binary,
            oversized: self.oversized,
            invalid_utf8: self.invalid_utf8,
            unsupported_encoding: self.unsupported_encoding,
            unreadable: self.unreadable,
            unsupported_filesystem_type: self.unsupported_filesystem_type,
            symlink: self.symlink,
            details,
        }
    }
}

/// Number of details with the given reason.
pub open spec fn count_reason(s: Seq<SkipDetail>, reason: SkipReason) -> nat
    decreases s.len(),
{
    if s.len() == 0 {
        0
    } else {
        count_reason(s.drop_last(), reason) + if s.last().reason == reason { 1nat } else { 0nat }
    }
}

/// Whether `summary` accounts exactly for the skip details `d`.
pub open spec fn summarizes(summary: SkippedSummary, d: Seq<SkipDetail>) -> bool {
    &&& summary.details@ == stable_sorted(d)
    &&& summary.total == d.len()
    &&& summary.binary == count_reason(d, SkipReason::Binary)
    &&& summary.oversized == count_reason(d, SkipReason::Oversized)
    &&& summary.invalid_utf8 == count_reason(d, SkipReason::InvalidUtf8)
    &&& summary.unsupported_encoding == count_reason(d, SkipReason::UnsupportedEncoding)
    &&& summary.unreadable == count_reason(d, SkipReason::Unreadable)
    &&& summary.unsupported_filesystem_type == count_reason(
        d,
        SkipReason::UnsupportedFilesystemType,
    )
    &&& summary.symlink == count_reason(d, SkipReason::Symlink)
}

proof fn lemma_count_reason_bound(s: Seq<SkipDetail>, reason: SkipReason)
    ensures
        count_reason(s, reason) <= s.len(),
    decreases s.len(),
{
    if s.len() > 0 {
        lemma_count_reason_bound(s.drop_last(), reason);
    }
}

impl SkippedSummary {
    /// Summarize skip details: order them by path then reason and count each reason.
    pub fn from_details(details: Vec<SkipDetail>) -> (r: Result<Self, ScanError>)
        ensures
            r matches Ok(summary) && summarizes(summary, details@),
    {
        let ghost d = details@;
        let mut summary = SkippedSummary::default();
        let mut i: usize = 0;
        while i < details.len()
            invariant
                d == details@,
                i <= details.len(),
                summary.total == i,
                summary.binary == count_reason(d.take(i as int), SkipReason::Binary),
                summary.oversized == count_reason(d.take(i as int), SkipReason::Oversized),
                summary.invalid_utf8 == count_reason(d.take(i as int), SkipReason::InvalidUtf8),
                summary.unsupported_encoding == count_reason(
                    d.take(i as int),
                    SkipReason::UnsupportedEncoding,
                ),
                summary.unreadable == count_reason(d.take(i as int), SkipReason::Unreadable),
                summary.unsupported_filesystem_type == count_reason(
                    d.take(i as int),
                    SkipReason::UnsupportedFilesystemType,
                ),
                summary.symlink == count_reason(d.take(i as int), SkipReason::Symlink),
            decreases details.len() - i,
        {
            proof {
                assert(d.take(i as int + 1).drop_last() =~= d.take(i as int));
                assert(d.take(i as int + 1).last() == d[i as int]);
                lemma_count_reason_bound(d.take(i as int), SkipReason::Binary);
                lemma_count_reason_bound(d.take(i as int), SkipReason::Oversized);
                lemma_count_reason_bound(d.take(i as int), SkipReason::InvalidUtf8);
                lemma_count_reason_bound(d.take(i as int), SkipReason::UnsupportedEncoding);
                lemma_count_reason_bound(d.take(i as int), SkipReason::Unreadable);
                lemma_count_reason_bound(d.take(i as int), SkipReason::UnsupportedFilesystemType);
                lemma_count_reason_bound(d.take(i as int), SkipReason::Symlink);
            }
            match details[i].reason {
                SkipReason::Binary => summary.binary = summary.binary + 1,
                SkipReason::Oversized => summary.oversized = summary.oversized + 1,
                SkipReason::InvalidUtf8 => summary.invalid_utf8 = summary.invalid_utf8 + 1,
                SkipReason::UnsupportedEncoding => summary.unsupported_encoding = summary.unsupported_encoding + 1,
                SkipReason::Unreadable => summary.unreadable = summary.unreadable + 1,
                SkipReason::UnsupportedFilesystemType => summary.unsupported_filesystem_type = summary.unsupported_filesystem_type + 1,
                SkipReason::Symlink => summary.symlink = summary.symlink + 1,
            }
            summary.total = summary.total + 1;
            i += 1;
        }
        assert(d.take(d.len() as int) =~= d);
        summary.details = stable_sort(details);
        Ok(summary)
    }
}

/// Complete deterministic result of one filesystem scan.
#[derive(Debug, PartialEq, Eq)]
pub struct ScanResult {
    /// Stable identity of the selected tokenizer.
    pub tokenizer: TokenizerMetadata,
    /// Versioned text transformation applied to every decoded file.
    pub text_policy: TextPolicyMetadata,
    /// Invalid UTF-8 policy active for the scan.
    pub invalid_utf8: InvalidUtf8Policy,
    /// Totals across measured files.
    pub totals: ScanTotals,
    /// Per-language totals sorted by tokens descending, then name.
    pub languages: Vec<LanguageResult>,
    /// Measured files sorted by normalized logical path.
    pub files: Vec<ScanFileResult>,
    /// Aggregate and per-path skip accounting.
    pub skipped: SkippedSummary,
}

/// Sum of token counts of measured files.
pub open spec fn sum_tokens(s: Seq<FileResult>) -> nat
    decreases s.len(),
{
    if s.len() == 0 { 0 } else { sum_tokens(s.drop_last()) + s.last().tokens as nat }
}

/// Sum of sizes of measured files.
pub open spec fn sum_bytes(s: Seq<FileResult>) -> nat
    decreases s.len(),
{
    if s.len() == 0 { 0 } else { sum_bytes(s.drop_last()) + s.last().bytes as nat }
}

/// Number of measured files in one language family.
pub open spec fn language_files(s: Seq<FileResult>, l: Language) -> nat
    decreases s.len(),
{
    if s.len() == 0 {
        0
    } else {
        language_files(s.drop_last(), l) + if s.last().language == l { 1nat } else { 0nat }
    }
}

/// Sum of token counts of measured files in one language family.
pub open spec fn language_tokens(s: Seq<FileResult>, l: Language) -> nat
    decreases s.len(),
{
    if s.len() == 0 {
        0
    } else {
        language_tokens(s.drop_last(), l) + if s.last().language == l { s.last().tokens as nat } else { 0nat }
    }
}

/// Sum of sizes of measured files in one language family.
pub open spec fn language_bytes(s: Seq<FileResult>, l: Language) -> nat
    decreases s.len(),
{
    if s.len() == 0 {
        0
    } else {
        language_bytes(s.drop_last(), l) + if s.last().language == l { s.last().bytes as nat } else { 0nat }
    }
}

/// The totals of one language family.
pub open spec fn language_entry(s: Seq<FileResult>, l: Language) -> LanguageResult {
    LanguageResult {
        name: l,
        files: language_files(s, l) as u64,
        tokens: language_tokens(s, l) as u64,
        bytes: language_bytes(s, l) as u64,
    }
}

/// The totals of the families at ranks `r` and above that have files, in rank order.
pub open spec fn language_entries_from(s: Seq<FileResult>, r: nat) -> Seq<LanguageResult>
    decreases LANGUAGE_COUNT - r,
{
    if r >= LANGUAGE_COUNT {
        Seq::empty()
    } else {
        let l = Language::spec_from_rank(r as int);
        let here = if language_files(s, l) > 0 {
            seq![language_entry(s, l)]
        } else {
            Seq::empty()
        };
        here + language_entries_from(s, r + 1)
    }
}

/// Whether `r` is the aggregate of `measured` and `skipped` under `options`.
pub open spec fn aggregates(r: ScanResult, measured: Seq<FileResult>, skipped: Seq<SkipDetail>, options: ScanOptions) -> bool {
    &&& r.tokenizer == options.spec_count().spec_metadata()
    &&& options.spec_count().spec_text_policy().spec_describes(r.text_policy)
    &&& r.invalid_utf8 == options.spec_invalid_utf8()
    &&& r.totals.files == measured.len()
    &&& r.totals.tokens == sum_tokens(measured)
    &&& r.totals.bytes == sum_bytes(measured)
    &&& r.languages@ == stable_sorted(language_entries_from(measured, 0))
    &&& r.files@ == stable_sorted(measured.map_values(|f: FileResult| spec_scan_file(f)))
    &&& summarizes(r.skipped, skipped)
}

/// Add one file to running totals, failing when a total would exceed `u64`.
/// Totals are updated field by field, so a failure leaves the earlier fields updated.
pub fn add_file(totals: &mut ScanTotals, tokens: u64, bytes: u64) -> (r: Result<(), ScanError>)
    ensures
        old(totals).files + 1 > u64::MAX ==> (r matches Err(ScanError::AggregateOverflow)) && *final(totals) == *old(totals),
        old(totals).files + 1 <= u64::MAX && old(totals).tokens + tokens > u64::MAX ==> (r matches Err(
            ScanError::AggregateOverflow,
        )) && *final(totals) == (ScanTotals { files: (old(totals).files + 1) as u64, ..*old(totals) }),
        old(totals).files + 1 <= u64::MAX && old(totals).tokens + tokens <= u64::MAX && old(
            totals,
        ).bytes + bytes > u64::MAX ==> (r matches Err(ScanError::AggregateOverflow)) && *final(totals)
            == (ScanTotals {
            files: (old(totals).files + 1) as u64,
            tokens: (old(totals).tokens + tokens) as u64,
            ..*old(totals)
        }),
        old(totals).files + 1 <= u64::MAX && old(totals).tokens + tokens <= u64::MAX && old(
            totals,
        ).bytes + bytes <= u64::MAX ==> r is Ok && *final(totals) == (ScanTotals {
            files: (old(totals).files + 1) as u64,
            tokens: (old(totals).tokens + tokens) as u64,
            bytes: (old(totals).bytes + bytes) as u64,
        }),
{
    totals.files = match totals.files.checked_add(1) {
        Some(v) => v,
        None => {
            return Err(ScanError::AggregateOverflow);
        },
    };
    totals.tokens = match totals.tokens.checked_add(tokens) {
        Some(v) => v,
        None => {
            return Err(ScanError::AggregateOverflow);
        },
    };
    totals.bytes = match totals.bytes.checked_add(bytes) {
        Some(v) => v,
        None => {
            return Err(ScanError::AggregateOverflow);
        },
    };
    Ok(())
}

} // verus!

verus! {

proof fn lemma_sums_monotone(s: Seq<FileResult>, i: int, j: int)
    requires
        0 <= i <= j <= s.len(),
    ensures
        sum_tokens(s.take(i)) <= sum_tokens(s.take(j)),
        sum_bytes(s.take(i)) <= sum_bytes(s.take(j)),
    decreases j - i,
{
    if i < j {
        lemma_sums_monotone(s, i, j - 1);
        assert(s.take(j).drop_last() =~= s.take(j - 1));
    }
}

proof fn lemma_language_sums_bounded(s: Seq<FileResult>, l: Language)
    ensures
        language_files(s, l) <= s.len(),
        language_tokens(s, l) <= sum_tokens(s),
        language_bytes(s, l) <= sum_bytes(s),
    decreases s.len(),
{
    if s.len() > 0 {
        lemma_language_sums_bounded(s.drop_last(), l);
    }
}

/// The totals of one family in a prefix of the measured files.
spec fn prefix_language_totals(s: Seq<FileResult>, i: int, r: int) -> ScanTotals {
    let l = Language::spec_from_rank(r);
    ScanTotals {
        files: language_files(s.take(i), l) as u64,
        tokens: language_tokens(s.take(i), l) as u64,
        bytes: language_bytes(s.take(i), l) as u64,
    }
}

/// Aggregate measured files and skip details into one deterministic scan result.
pub fn aggregate(measured: Vec<FileResult>, skipped: Vec<SkipDetail>, options: &ScanOptions) -> (r: Result<ScanResult, ScanError>)
    ensures
        sum_tokens(measured@) <= u64::MAX && sum_bytes(measured@) <= u64::MAX ==> (r matches Ok(res)
            && aggregates(res, measured@, skipped@, *options)),
        !(sum_tokens(measured@) <= u64::MAX && sum_bytes(measured@) <= u64::MAX) ==> (r matches Err(
            ScanError::AggregateOverflow,
        )),
{
    let ghost s = measured@;
    let n = measured.len();
    let mut totals = ScanTotals::default();
    let mut per: Vec<ScanTotals> = Vec::new();
    let mut k: usize = 0;
    while k < LANGUAGE_COUNT
        invariant
            k <= LANGUAGE_COUNT,
            per@.len() == k,
            forall|r: int| 0 <= r < k ==> per@[r] == (ScanTotals { files: 0, tokens: 0, bytes: 0 }),
        decreases LANGUAGE_COUNT - k,
    {
        per.push(ScanTotals::default());
        k += 1;
    }
    let mut files: Vec<ScanFileResult> = Vec::new();
    let mut i: usize = 0;
    assert(s.take(0) =~= Seq::<FileResult>::empty());
    while i < n
        invariant
            s == measured@,
            n == s.len(),
            i <= n,
            per@.len() == LANGUAGE_COUNT,
            totals.files == i,
            totals.tokens == sum_tokens(s.take(i as int)),
            totals.bytes == sum_bytes(s.take(i as int)),
            forall|r: int| 0 <= r < LANGUAGE_COUNT ==> #[trigger] per@[r] == prefix_language_totals(s, i as int, r),
            files@ == s.take(i as int).map_values(|f: FileResult| spec_scan_file(f)),
        decreases n - i,
    {
        let file = &measured[i];
        proof {
            assert(s.take(i as int + 1).drop_last() =~= s.take(i as int));
            assert(s.take(i as int + 1).last() == s[i as int]);
            lemma_sums_monotone(s, i as int + 1, n as int);
            assert(s.take(n as int) =~= s);
        }
        let step = add_file(&mut totals, file.tokens, file.bytes);
        if step.is_err() {
            proof {
                assert(sum_tokens(s.take(i as int + 1)) == sum_tokens(s.take(i as int)) + s[i as int].tokens);
                assert(sum_bytes(s.take(i as int + 1)) == sum_bytes(s.take(i as int)) + s[i as int].bytes);
            }
            return Err(ScanError::AggregateOverflow);
        }
        let idx = file.language.index();
        let mut lang = per[idx];
        proof {
            lemma_language_rank_injective(file.language, file.language);
            let l = file.language;
            assert(Language::spec_from_rank(idx as int) == l);
            lemma_language_sums_bounded(s.take(i as int + 1), l);
            assert(language_files(s.take(i as int + 1), l) == language_files(s.take(i as int), l) + 1);
            assert(language_tokens(s.take(i as int + 1), l) == language_tokens(s.take(i as int), l) + s[i as int].tokens);
            assert(language_bytes(s.take(i as int + 1), l) == language_bytes(s.take(i as int), l) + s[i as int].bytes);
        }
        let lang_step = add_file(&mut lang, file.tokens, file.bytes);
        assert(lang_step is Ok);
        per.set(idx, lang);
        files.push(ScanFileResult::from_file(file));
        proof {
            assert forall|r: int| 0 <= r < LANGUAGE_COUNT implies #[trigger] per@[r] == prefix_language_totals(s, i as int + 1, r) by {
                let l = Language::spec_from_rank(r);
                lemma_language_rank_injective(l, s[i as int].language);
                if r != idx as int {
                    assert(l != s[i as int].language);
                }
            }
            assert(files@ =~= s.take(i as int + 1).map_values(|f: FileResult| spec_scan_file(f)));
        }
        i += 1;
    }
    assert(s.take(n as int) =~= s);
    let mut entries: Vec<LanguageResult> = Vec::new();
    let mut r: usize = 0;
    while r < LANGUAGE_COUNT
        invariant
            s == measured@,
            n == s.len(),
            r <= LANGUAGE_COUNT,
            per@.len() == LANGUAGE_COUNT,
            forall|q: int| 0 <= q < LANGUAGE_COUNT ==> #[trigger] per@[q] == prefix_language_totals(s, n as int, q),
            entries@ + language_entries_from(s, r as nat) == language_entries_from(s, 0),
        decreases LANGUAGE_COUNT - r,
    {
        let t = per[r];
        let name = Language::from_index(r);
        proof {
            lemma_language_sums_bounded(s, name);
            assert(s.take(n as int) =~= s);
        }
        if t.files > 0 {
            entries.push(LanguageResult { name, files: t.files, tokens: t.tokens, bytes: t.bytes });
        }
        assert(entries@ + language_entries_from(s, (r + 1) as nat) =~= language_entries_from(s, 0));
        r += 1;
    }
    assert(entries@ =~= language_entries_from(s, 0));
    let languages = stable_sort(entries);
    let files = stable_sort(files);
    let skipped = match SkippedSummary::from_details(skipped) {
        Ok(summary) => summary,
        Err(e) => {
            return Err(e);
        },
    };
    Ok(ScanResult {
        tokenizer: options.count_options().tokenizer().metadata_ref().clone(),
        text_policy: options.count_options().text_policy().metadata(),
        invalid_utf8: options.invalid_utf8(),
        totals,
        languages,
        files,
        skipped,
    })
}

} // verus!
