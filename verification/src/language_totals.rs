//! The language table of a scan adds up to the scan's totals.

use vstd::prelude::*;

use crate::aggregate::{
    LanguageResult, ScanResult, aggregates, language_bytes, language_entries_from, language_entry,
    language_files, language_tokens, sum_bytes, sum_tokens,
};
use crate::classify::{LANGUAGE_COUNT, Language, lemma_language_rank_injective};
use crate::file::{FileResult, ScanOptions, SkipDetail};
use crate::sort::{insertion_index, lemma_insertion_index_bound, stable_sorted};

verus! {

/// Sum of the file counts of language rows.
pub open spec fn row_files(s: Seq<LanguageResult>) -> nat
    decreases s.len(),
{
    if s.len() == 0 { 0 } else { row_files(s.drop_last()) + s.last().files as nat }
}

/// Sum of the token counts of language rows.
pub open spec fn row_tokens(s: Seq<LanguageResult>) -> nat
    decreases s.len(),
{
    if s.len() == 0 { 0 } else { row_tokens(s.drop_last()) + s.last().tokens as nat }
}

/// Sum of the byte counts of language rows.
pub open spec fn row_bytes(s: Seq<LanguageResult>) -> nat
    decreases s.len(),
{
    if s.len() == 0 { 0 } else { row_bytes(s.drop_last()) + s.last().bytes as nat }
}

proof fn lemma_row_sums_append(a: Seq<LanguageResult>, b: Seq<LanguageResult>)
    ensures
        row_files(a + b) == row_files(a) + row_files(b),
        row_tokens(a + b) == row_tokens(a) + row_tokens(b),
        row_bytes(a + b) == row_bytes(a) + row_bytes(b),
    decreases b.len(),
{
    if b.len() == 0 {
        assert(a + b =~= a);
    } else {
        lemma_row_sums_append(a, b.drop_last());
        assert((a + b).drop_last() =~= a + b.drop_last());
        assert((a + b).last() == b.last());
    }
}

proof fn lemma_row_sums_split(t: Seq<LanguageResult>, k: int)
    requires
        0 <= k <= t.len(),
    ensures
        row_files(t) == row_files(t.take(k)) + row_files(t.skip(k)),
        row_tokens(t) == row_tokens(t.take(k)) + row_tokens(t.skip(k)),
        row_bytes(t) == row_bytes(t.take(k)) + row_bytes(t.skip(k)),
{
    assert(t.take(k) + t.skip(k) =~= t);
    lemma_row_sums_append(t.take(k), t.skip(k));
}

/// Reordering rows by the stable sort keeps their sums.
proof fn lemma_row_sums_sorted(s: Seq<LanguageResult>)
    ensures
        row_files(stable_sorted(s)) == row_files(s),
        row_tokens(stable_sorted(s)) == row_tokens(s),
        row_bytes(stable_sorted(s)) == row_bytes(s),
    decreases s.len(),
{
    if s.len() > 0 {
        let d = s.drop_last();
        let x = s.last();
        lemma_row_sums_sorted(d);
        let t = stable_sorted(d);
        let k = insertion_index(t, x) as int;
        lemma_insertion_index_bound(t, x);
        lemma_row_sums_split(t, k);
        let front = t.take(k).push(x);
        assert(front.drop_last() =~= t.take(k));
        lemma_row_sums_append(front, t.skip(k));
        assert(stable_sorted(s) == front + t.skip(k));
    }
}

/// Per-family sums over the families at ranks `r` and above.
spec fn ranked_files(s: Seq<FileResult>, r: int) -> nat
    decreases LANGUAGE_COUNT - r,
{
    if r >= LANGUAGE_COUNT || r < 0 {
        0
    } else {
        language_files(s, Language::spec_from_rank(r)) + ranked_files(s, r + 1)
    }
}

spec fn ranked_tokens(s: Seq<FileResult>, r: int) -> nat
    decreases LANGUAGE_COUNT - r,
{
    if r >= LANGUAGE_COUNT || r < 0 {
        0
    } else {
        language_tokens(s, Language::spec_from_rank(r)) + ranked_tokens(s, r + 1)
    }
}

spec fn ranked_bytes(s: Seq<FileResult>, r: int) -> nat
    decreases LANGUAGE_COUNT - r,
{
    if r >= LANGUAGE_COUNT || r < 0 {
        0
    } else {
        language_bytes(s, Language::spec_from_rank(r)) + ranked_bytes(s, r + 1)
    }
}

/// Adding one file to the measured files adds it to exactly one rank.
proof fn lemma_ranked_step(s: Seq<FileResult>, r: int)
    requires
        s.len() > 0,
        0 <= r <= LANGUAGE_COUNT,
    ensures
        ranked_files(s, r) == ranked_files(s.drop_last(), r) + (if s.last().language.rank() >= r { 1nat } else { 0nat }),
        ranked_tokens(s, r) == ranked_tokens(s.drop_last(), r) + (if s.last().language.rank() >= r {
            s.last().tokens as nat
        } else {
            0nat
        }),
        ranked_bytes(s, r) == ranked_bytes(s.drop_last(), r) + (if s.last().language.rank() >= r {
            s.last().bytes as nat
        } else {
            0nat
        }),
    decreases LANGUAGE_COUNT - r,
{
    lemma_language_rank_injective(s.last().language, s.last().language);
    if r < LANGUAGE_COUNT {
        lemma_ranked_step(s, r + 1);
        let l = Language::spec_from_rank(r);
        lemma_language_rank_injective(l, s.last().language);
        assert(l.rank() == r);
    }
}

/// Summing the per-family totals over all families gives the overall totals.
proof fn lemma_ranked_total(s: Seq<FileResult>)
    ensures
        ranked_files(s, 0) == s.len(),
        ranked_tokens(s, 0) == sum_tokens(s),
        ranked_bytes(s, 0) == sum_bytes(s),
    decreases s.len(),
{
    if s.len() == 0 {
        lemma_ranked_empty(s, 0);
    } else {
        lemma_ranked_total(s.drop_last());
        lemma_ranked_step(s, 0);
        lemma_language_rank_injective(s.last().language, s.last().language);
    }
}

proof fn lemma_ranked_empty(s: Seq<FileResult>, r: int)
    requires
        s.len() == 0,
    ensures
        ranked_files(s, r) == 0,
        ranked_tokens(s, r) == 0,
        ranked_bytes(s, r) == 0,
    decreases LANGUAGE_COUNT - r,
{
    if 0 <= r < LANGUAGE_COUNT {
        lemma_ranked_empty(s, r + 1);
    }
}

/// A family without files has no tokens and no bytes.
proof fn lemma_empty_family(s: Seq<FileResult>, l: Language)
    ensures
        language_files(s, l) == 0 ==> language_tokens(s, l) == 0 && language_bytes(s, l) == 0,
        language_files(s, l) <= s.len(),
        language_tokens(s, l) <= sum_tokens(s),
        language_bytes(s, l) <= sum_bytes(s),
    decreases s.len(),
{
    if s.len() > 0 {
        lemma_empty_family(s.drop_last(), l);
    }
}

/// The rows for ranks `r` and above add up to the per-family sums over those ranks.
proof fn lemma_entries_sum(s: Seq<FileResult>, r: int)
    requires
        0 <= r <= LANGUAGE_COUNT,
        s.len() <= u64::MAX,
        sum_tokens(s) <= u64::MAX,
        sum_bytes(s) <= u64::MAX,
    ensures
        row_files(language_entries_from(s, r as nat)) == ranked_files(s, r),
        row_tokens(language_entries_from(s, r as nat)) == ranked_tokens(s, r),
        row_bytes(language_entries_from(s, r as nat)) == ranked_bytes(s, r),
    decreases LANGUAGE_COUNT - r,
{
    if r < LANGUAGE_COUNT {
        lemma_entries_sum(s, r + 1);
        let l = Language::spec_from_rank(r);
        lemma_empty_family(s, l);
        let rest = language_entries_from(s, (r + 1) as nat);
        assert(language_entries_from(s, r as nat) == (if language_files(s, l) > 0 {
            seq![language_entry(s, l)]
        } else {
            Seq::empty()
        }) + rest);
        if language_files(s, l) > 0 {
            let e = language_entry(s, l);
            lemma_row_sums_append(seq![e], rest);
            assert(seq![e].drop_last() =~= Seq::<LanguageResult>::empty());
            assert(seq![e].last() == e);
            assert(row_files(Seq::<LanguageResult>::empty()) == 0);
            assert(row_tokens(Seq::<LanguageResult>::empty()) == 0);
            assert(row_bytes(Seq::<LanguageResult>::empty()) == 0);
            assert(row_files(seq![e]) == e.files as nat);
            assert(row_tokens(seq![e]) == e.tokens as nat);
            assert(row_bytes(seq![e]) == e.bytes as nat);
        } else {
            assert(Seq::<LanguageResult>::empty() + rest =~= rest);
        }
    }
}

/// The language table adds up to the totals: over the rows of a scan result,
/// the file, token and byte columns sum to the result's totals.
pub proof fn law_language_rows_sum_to_totals(
    r: ScanResult,
    measured: Seq<FileResult>,
    skipped: Seq<SkipDetail>,
    options: ScanOptions,
)
    requires
        aggregates(r, measured, skipped, options),
    ensures
        row_files(r.languages@) == r.totals.files,
        row_tokens(r.languages@) == r.totals.tokens,
        row_bytes(r.languages@) == r.totals.bytes,
{
    lemma_ranked_total(measured);
    lemma_entries_sum(measured, 0);
    lemma_row_sums_sorted(language_entries_from(measured, 0));
}

} // verus!
