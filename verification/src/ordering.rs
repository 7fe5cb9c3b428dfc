//! The order in which results are reported: files by path, languages by
//! tokens then name, skipped paths by path then reason, and changed files of a
//! comparison by path, each path once.

use vstd::prelude::*;

use crate::aggregate::{LanguageResult, ScanFileResult, ScanResult, aggregates};
use crate::diff::{
    DiffFileResult, DiffResult, LanguageDelta, compares, dedup_adjacent, diff_entries, diff_entry,
    union_paths,
};
use crate::file::{FileResult, ScanOptions, SkipDetail};
use crate::path::{chars_order, lemma_chars_order, lemma_path_order, path_order};
use crate::sort::{SortKey, lemma_stable_sorted_is_sorted, sorted_by_key, stable_sorted, strict_key_order};

verus! {

pub(crate) proof fn lemma_string_order()
    ensures
        strict_key_order::<String>(),
{
    assert forall|a: String, b: String| #[trigger] a.spec_after(&b) implies !b.spec_after(&a) by {
        lemma_path_order(a@, b@, a@);
    }
    assert forall|a: String, b: String, c: String| #[trigger] a.spec_after(&b) && #[trigger] b.spec_after(&c) implies a.spec_after(&c) by {
        lemma_path_order(c@, b@, a@);
        lemma_path_order(a@, b@, c@);
        lemma_path_order(b@, c@, a@);
        lemma_path_order(a@, c@, b@);
    }
}

proof fn lemma_file_order()
    ensures
        strict_key_order::<ScanFileResult>(),
{
    assert forall|a: ScanFileResult, b: ScanFileResult| #[trigger] a.spec_after(&b) implies !b.spec_after(&a) by {
        lemma_path_order(a.path@, b.path@, a.path@);
    }
    assert forall|a: ScanFileResult, b: ScanFileResult, c: ScanFileResult| #[trigger] a.spec_after(&b) && #[trigger] b.spec_after(&c) implies a.spec_after(&c) by {
        lemma_path_order(c.path@, b.path@, a.path@);
        lemma_path_order(a.path@, b.path@, c.path@);
        lemma_path_order(b.path@, c.path@, a.path@);
        lemma_path_order(a.path@, c.path@, b.path@);
    }
}

proof fn lemma_detail_order()
    ensures
        strict_key_order::<SkipDetail>(),
{
    assert forall|a: SkipDetail, b: SkipDetail| #[trigger] a.spec_after(&b) implies !b.spec_after(&a) by {
        lemma_path_order(a.path@, b.path@, a.path@);
    }
    assert forall|a: SkipDetail, b: SkipDetail, c: SkipDetail| #[trigger] a.spec_after(&b) && #[trigger] b.spec_after(&c) implies a.spec_after(&c) by {
        lemma_path_order(c.path@, b.path@, a.path@);
        lemma_path_order(a.path@, b.path@, c.path@);
        lemma_path_order(b.path@, c.path@, a.path@);
        lemma_path_order(a.path@, c.path@, b.path@);
        lemma_path_order(b.path@, a.path@, c.path@);
        lemma_path_order(c.path@, a.path@, b.path@);
    }
}

proof fn lemma_language_result_order()
    ensures
        strict_key_order::<LanguageResult>(),
{
    assert forall|a: LanguageResult, b: LanguageResult| #[trigger] a.spec_after(&b) implies !b.spec_after(&a) by {
        lemma_chars_order(a.name.spec_name(), b.name.spec_name(), a.name.spec_name());
    }
    assert forall|a: LanguageResult, b: LanguageResult, c: LanguageResult| #[trigger] a.spec_after(&b) && #[trigger] b.spec_after(&c) implies a.spec_after(&c) by {
        let (x, y, z) = (a.name.spec_name(), b.name.spec_name(), c.name.spec_name());
        lemma_chars_order(z, y, x);
        lemma_chars_order(x, y, z);
        lemma_chars_order(y, z, x);
        lemma_chars_order(x, z, y);
    }
}

proof fn lemma_language_delta_order()
    ensures
        strict_key_order::<LanguageDelta>(),
{
    assert forall|a: LanguageDelta, b: LanguageDelta| #[trigger] a.spec_after(&b) implies !b.spec_after(&a) by {
        lemma_chars_order(a.name.spec_name(), b.name.spec_name(), a.name.spec_name());
    }
    assert forall|a: LanguageDelta, b: LanguageDelta, c: LanguageDelta| #[trigger] a.spec_after(&b) && #[trigger] b.spec_after(&c) implies a.spec_after(&c) by {
        let (x, y, z) = (a.name.spec_name(), b.name.spec_name(), c.name.spec_name());
        lemma_chars_order(z, y, x);
        lemma_chars_order(x, y, z);
        lemma_chars_order(y, z, x);
        lemma_chars_order(x, z, y);
    }
}

/// A scan reports its files in path order, its languages by tokens
/// descending then name, and its skipped paths by path then reason.
pub proof fn law_scan_results_are_ordered(r: ScanResult, measured: Seq<FileResult>, skipped: Seq<SkipDetail>, options: ScanOptions)
    requires
        aggregates(r, measured, skipped, options),
    ensures
        forall|i: int, j: int| 0 <= i < j < r.files@.len() ==> path_order(
            (#[trigger] r.files@[i]).path@,
            (#[trigger] r.files@[j]).path@,
        ) <= 0,
        sorted_by_key(r.languages@),
        sorted_by_key(r.skipped.details@),
{
    lemma_file_order();
    lemma_language_result_order();
    lemma_detail_order();
    lemma_stable_sorted_is_sorted(measured.map_values(|f: FileResult| crate::aggregate::spec_scan_file(f)));
    lemma_stable_sorted_is_sorted(crate::aggregate::language_entries_from(measured, 0));
    lemma_stable_sorted_is_sorted(skipped);
    assert forall|i: int, j: int| 0 <= i < j < r.files@.len() implies path_order(
        (#[trigger] r.files@[i]).path@,
        (#[trigger] r.files@[j]).path@,
    ) <= 0 by {
        assert(!r.files@[i].spec_after(&r.files@[j]));
    }
}

/// Whether the paths are in strictly increasing path order.
pub open spec fn strictly_ordered(s: Seq<String>) -> bool {
    forall|i: int, j: int| #![trigger s[i], s[j]] 0 <= i < j < s.len() ==> path_order(s[i]@, s[j]@) < 0
}

pub(crate) proof fn lemma_dedup_ordered(s: Seq<String>)
    requires
        sorted_by_key(s),
    ensures
        strictly_ordered(dedup_adjacent(s)),
        forall|i: int| 0 <= i < dedup_adjacent(s).len() ==> exists|m: int| 0 <= m < s.len() && #[trigger] dedup_adjacent(s)[i] == s[m],
    decreases s.len(),
{
    if s.len() > 0 {
        let t = s.drop_last();
        assert(sorted_by_key(t)) by {
            assert forall|i: int, j: int| #![trigger t[i], t[j]] 0 <= i < j < t.len() implies !t[i].spec_after(&t[j]) by {
                assert(t[i] == s[i] && t[j] == s[j]);
            }
        }
        lemma_dedup_ordered(t);
        let d = dedup_adjacent(t);
        let n = s.len() as int;
        if n > 1 && path_order(s[n - 2]@, s.last()@) == 0 {
            assert(dedup_adjacent(s) == d);
            assert forall|i: int| 0 <= i < d.len() implies exists|m: int| 0 <= m < s.len() && #[trigger] d[i] == s[m] by {
                let m = choose|m: int| 0 <= m < t.len() && d[i] == t[m];
                assert(s[m] == t[m]);
            }
        } else {
            let r = d.push(s.last());
            assert(dedup_adjacent(s) == r);
            assert forall|i: int| 0 <= i < d.len() implies path_order((#[trigger] d[i])@, s.last()@) < 0 by {
                let m = choose|m: int| 0 <= m < t.len() && d[i] == t[m];
                assert(d[i] == s[m]);
                assert(!s[m].spec_after(&s[n - 1]));
                assert(!s[n - 2].spec_after(&s[n - 1]));
                lemma_path_order(s[m]@, s[n - 1]@, s[n - 2]@);
                lemma_path_order(s[n - 2]@, s[n - 1]@, s[m]@);
                if m < n - 2 {
                    assert(!s[m].spec_after(&s[n - 2]));
                    lemma_path_order(s[m]@, s[n - 2]@, s[n - 1]@);
                }
            }
            assert forall|i: int, j: int| #![trigger r[i], r[j]] 0 <= i < j < r.len() implies path_order(r[i]@, r[j]@) < 0 by {
                if j < d.len() {
                    assert(r[i] == d[i] && r[j] == d[j]);
                } else {
                    assert(r[i] == d[i] && r[j] == s.last());
                }
            }
            assert forall|i: int| 0 <= i < r.len() implies exists|m: int| 0 <= m < s.len() && #[trigger] r[i] == s[m] by {
                if i < d.len() {
                    let m = choose|m: int| 0 <= m < t.len() && d[i] == t[m];
                    assert(r[i] == s[m]);
                } else {
                    assert(r[i] == s[n - 1]);
                }
            }
        }
    }
}

/// The paths of a list of entries.
pub open spec fn entry_paths(es: Seq<DiffFileResult>) -> Seq<String> {
    Seq::new(es.len(), |i: int| es[i].path)
}

proof fn lemma_entries_ordered(ps: Seq<String>, base: Seq<ScanFileResult>, head: Seq<ScanFileResult>)
    requires
        strictly_ordered(ps),
    ensures
        strictly_ordered(entry_paths(diff_entries(ps, base, head))),
        forall|i: int| 0 <= i < diff_entries(ps, base, head).len() ==> exists|m: int| 0 <= m < ps.len() && (#[trigger] diff_entries(ps, base, head)[i]).path == ps[m],
    decreases ps.len(),
{
    if ps.len() > 0 {
        let t = ps.drop_last();
        assert(strictly_ordered(t)) by {
            assert forall|i: int, j: int| #![trigger t[i], t[j]] 0 <= i < j < t.len() implies path_order(t[i]@, t[j]@) < 0 by {
                assert(t[i] == ps[i] && t[j] == ps[j]);
            }
        }
        lemma_entries_ordered(t, base, head);
        let d = diff_entries(t, base, head);
        let n = ps.len() as int;
        match diff_entry(ps.last(), base, head) {
            Some(e) => {
                let r = d.push(e);
                assert(diff_entries(ps, base, head) == r);
                assert forall|i: int, j: int| #![trigger entry_paths(r)[i], entry_paths(r)[j]] 0 <= i < j < r.len() implies path_order(entry_paths(r)[i]@, entry_paths(r)[j]@) < 0 by {
                    if j < d.len() {
                        assert(entry_paths(r)[i] == entry_paths(d)[i]);
                        assert(entry_paths(r)[j] == entry_paths(d)[j]);
                    } else {
                        let m = choose|m: int| 0 <= m < t.len() && d[i].path == t[m];
                        assert(entry_paths(r)[i] == ps[m]);
                        assert(entry_paths(r)[j] == ps[n - 1]);
                    }
                }
                assert forall|i: int| 0 <= i < r.len() implies exists|m: int| 0 <= m < ps.len() && (#[trigger] r[i]).path == ps[m] by {
                    if i < d.len() {
                        let m = choose|m: int| 0 <= m < t.len() && d[i].path == t[m];
                        assert(r[i].path == ps[m]);
                    } else {
                        assert(r[i].path == ps[n - 1]);
                    }
                }
            },
            None => {
                assert(diff_entries(ps, base, head) == d);
                assert forall|i: int| 0 <= i < d.len() implies exists|m: int| 0 <= m < ps.len() && (#[trigger] d[i]).path == ps[m] by {
                    let m = choose|m: int| 0 <= m < t.len() && d[i].path == t[m];
                    assert(ps[m] == t[m]);
                }
            },
        }
    }
}

/// A comparison reports each changed path once, in strictly increasing path
/// order, and its languages by impact (added plus removed) descending, then name.
pub proof fn law_comparison_is_ordered(d: DiffResult, base: ScanResult, head: ScanResult)
    requires
        compares(d, base, head),
    ensures
        forall|i: int, j: int| 0 <= i < j < d.files@.len() ==> path_order(
            (#[trigger] d.files@[i]).path@,
            (#[trigger] d.files@[j]).path@,
        ) < 0,
        sorted_by_key(d.languages@),
{
    lemma_string_order();
    lemma_language_delta_order();
    let bs = base.files@;
    let hs = head.files@;
    let all = crate::diff::distinct_paths(bs) + crate::diff::distinct_paths(hs);
    lemma_stable_sorted_is_sorted(all);
    lemma_dedup_ordered(stable_sorted(all));
    let ps = union_paths(bs, hs);
    lemma_entries_ordered(ps, bs, hs);
    lemma_stable_sorted_is_sorted(crate::diff::language_deltas_from(ps, bs, hs, 0));
    let es = diff_entries(ps, bs, hs);
    assert forall|i: int, j: int| 0 <= i < j < d.files@.len() implies path_order(
        (#[trigger] d.files@[i]).path@,
        (#[trigger] d.files@[j]).path@,
    ) < 0 by {
        assert(d.files@[i].path == entry_paths(es)[i]);
        assert(d.files@[j].path == entry_paths(es)[j]);
    }
}

/// A scan's language rows come by tokens, most first; rows with equal tokens
/// come in name order.
pub proof fn law_language_rows_by_tokens(r: ScanResult, measured: Seq<FileResult>, skipped: Seq<SkipDetail>, options: ScanOptions)
    requires
        aggregates(r, measured, skipped, options),
    ensures
        forall|i: int, j: int| 0 <= i < j < r.languages@.len() ==> (#[trigger] r.languages@[i]).tokens >= (
        #[trigger] r.languages@[j]).tokens,
        forall|i: int, j: int| 0 <= i < j < r.languages@.len() && (#[trigger] r.languages@[i]).tokens == (
        #[trigger] r.languages@[j]).tokens ==> chars_order(
            r.languages@[i].name.spec_name(),
            r.languages@[j].name.spec_name(),
        ) <= 0,
{
    law_scan_results_are_ordered(r, measured, skipped, options);
    assert forall|i: int, j: int| 0 <= i < j < r.languages@.len() implies (#[trigger] r.languages@[i]).tokens >= (
    #[trigger] r.languages@[j]).tokens && (r.languages@[i].tokens == r.languages@[j].tokens ==> chars_order(
        r.languages@[i].name.spec_name(),
        r.languages@[j].name.spec_name(),
    ) <= 0) by {
        assert(!r.languages@[i].spec_after(&r.languages@[j]));
    }
}

} // verus!
