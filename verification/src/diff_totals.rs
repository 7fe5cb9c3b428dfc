//! How the totals of a snapshot comparison relate to its per-language and per-file parts.

use vstd::prelude::*;

use crate::aggregate::{ScanFileResult, ScanResult};
use crate::classify::{LANGUAGE_COUNT, Language, lemma_language_rank_injective};
use crate::diff::{
    DiffFileResult, DiffResult, LanguageDelta, compares, contribution, diff_entries, diff_entry, entries_total,
    language_deltas_from, language_sum, lemma_entries_net, lemma_entries_total_net,
    lemma_language_sum_bounded, lemma_language_step, union_paths, dedup_adjacent, distinct_paths, lookup,
    seen_before, tokens_of,
};
use crate::ordering::{lemma_dedup_ordered, lemma_string_order, strictly_ordered};
use crate::path::{lemma_path_order, path_order};
use crate::sort::{
    SortKey, insert_ordered, insertion_index, lemma_insertion_index_bound, lemma_stable_sorted_is_sorted,
    stable_sorted,
};

verus! {

/// Componentwise sum of two triples.
pub open spec fn add3(a: (int, int, int), b: (int, int, int)) -> (int, int, int) {
    (a.0 + b.0, a.1 + b.1, a.2 + b.2)
}

/// Added, removed and net totals of a list of language deltas.
pub open spec fn delta_sum(s: Seq<LanguageDelta>) -> (int, int, int)
    decreases s.len(),
{
    if s.len() == 0 {
        (0, 0, 0)
    } else {
        let d = s.last().tokens;
        add3(delta_sum(s.drop_last()), (d.added as int, d.removed as int, d.net as int))
    }
}

/// A contribution as a triple, zero when absent.
spec fn or_zero(c: Option<(int, int, int)>) -> (int, int, int) {
    match c {
        Some(c) => c,
        None => (0, 0, 0),
    }
}

/// The contributions of one path to the languages of rank `r` and above.
spec fn contribution_total(p: String, base: Seq<ScanFileResult>, head: Seq<ScanFileResult>, r: nat) -> (int, int, int)
    decreases LANGUAGE_COUNT - r,
{
    if r >= LANGUAGE_COUNT {
        (0, 0, 0)
    } else {
        add3(
            or_zero(contribution(p, base, head, Language::spec_from_rank(r as int))),
            contribution_total(p, base, head, r + 1),
        )
    }
}

/// The summed deltas of the languages of rank `r` and above.
spec fn sums_from(ps: Seq<String>, base: Seq<ScanFileResult>, head: Seq<ScanFileResult>, r: nat) -> (int, int, int)
    decreases LANGUAGE_COUNT - r,
{
    if r >= LANGUAGE_COUNT {
        (0, 0, 0)
    } else {
        let s = language_sum(ps, base, head, Language::spec_from_rank(r as int));
        add3((s.1, s.2, s.3), sums_from(ps, base, head, r + 1))
    }
}

/// The delta of an optional entry as a triple, zero when absent.
spec fn entry_triple(p: String, base: Seq<ScanFileResult>, head: Seq<ScanFileResult>) -> (int, int, int) {
    match diff_entry(p, base, head) {
        Some(e) => (e.tokens.added as int, e.tokens.removed as int, e.tokens.net as int),
        None => (0, 0, 0),
    }
}

proof fn lemma_delta_sum_concat(a: Seq<LanguageDelta>, b: Seq<LanguageDelta>)
    ensures
        delta_sum(a + b) == add3(delta_sum(a), delta_sum(b)),
    decreases b.len(),
{
    if b.len() == 0 {
        assert(a + b =~= a);
    } else {
        assert((a + b).drop_last() =~= a + b.drop_last());
        assert((a + b).last() == b.last());
        lemma_delta_sum_concat(a, b.drop_last());
    }
}

proof fn lemma_delta_sum_sorted(s: Seq<LanguageDelta>)
    ensures
        delta_sum(stable_sorted(s)) == delta_sum(s),
    decreases s.len(),
{
    if s.len() > 0 {
        lemma_delta_sum_sorted(s.drop_last());
        let t = stable_sorted(s.drop_last());
        let x = s.last();
        let k = insertion_index(t, x) as int;
        lemma_insertion_index_bound(t, x);
        assert(insert_ordered(t, x) == t.take(k).push(x) + t.skip(k));
        lemma_delta_sum_concat(t.take(k).push(x), t.skip(k));
        assert(t.take(k).push(x).drop_last() =~= t.take(k));
        lemma_delta_sum_concat(t.take(k), t.skip(k));
        assert(t.take(k) + t.skip(k) =~= t);
        assert(s =~= s.drop_last().push(x));
    }
}

/// A language that no path touched has no delta.
proof fn lemma_untouched_zero(ps: Seq<String>, base: Seq<ScanFileResult>, head: Seq<ScanFileResult>, l: Language)
    ensures
        !language_sum(ps, base, head, l).0 ==> language_sum(ps, base, head, l) == (false, 0int, 0int, 0int),
    decreases ps.len(),
{
    if ps.len() > 0 {
        lemma_untouched_zero(ps.drop_last(), base, head, l);
    }
}

proof fn lemma_sums_step(ps: Seq<String>, base: Seq<ScanFileResult>, head: Seq<ScanFileResult>, r: nat)
    requires
        ps.len() > 0,
    ensures
        sums_from(ps, base, head, r) == add3(
            sums_from(ps.drop_last(), base, head, r),
            contribution_total(ps.last(), base, head, r),
        ),
    decreases LANGUAGE_COUNT - r,
{
    if r < LANGUAGE_COUNT {
        lemma_sums_step(ps, base, head, r + 1);
        lemma_language_step(ps, base, head, Language::spec_from_rank(r as int));
    }
}

/// The contributions of a path that touches at most the two languages `l1` and `l2`.
proof fn lemma_contribution_pair(
    p: String,
    base: Seq<ScanFileResult>,
    head: Seq<ScanFileResult>,
    r: nat,
    l1: Language,
    l2: Language,
)
    requires
        l1 != l2,
        forall|l: Language| l != l1 && l != l2 ==> #[trigger] contribution(p, base, head, l) is None,
        r <= LANGUAGE_COUNT,
    ensures
        contribution_total(p, base, head, r) == add3(
            if l1.rank() >= r { or_zero(contribution(p, base, head, l1)) } else { (0, 0, 0) },
            if l2.rank() >= r { or_zero(contribution(p, base, head, l2)) } else { (0, 0, 0) },
        ),
    decreases LANGUAGE_COUNT - r,
{
    lemma_language_rank_injective(l1, l2);
    lemma_language_rank_injective(l2, l1);
    if r < LANGUAGE_COUNT {
        lemma_contribution_pair(p, base, head, r + 1, l1, l2);
        let l = Language::spec_from_rank(r as int);
        lemma_language_rank_injective(l, l1);
        lemma_language_rank_injective(l, l2);
        assert(l.rank() == r) by {
            assert(0 <= r < 14);
        }
    }
}

/// A language other than `l`.
spec fn other_language(l: Language) -> Language {
    if l == Language::Rust { Language::Python } else { Language::Rust }
}

/// The contributions of one path to all languages add up to its entry.
proof fn lemma_contribution_total(p: String, base: Seq<ScanFileResult>, head: Seq<ScanFileResult>)
    ensures
        contribution_total(p, base, head, 0) == entry_triple(p, base, head),
{
    let b = crate::diff::lookup(base, p@);
    let h = crate::diff::lookup(head, p@);
    match (b, h) {
        (Some(bf), Some(hf)) => {
            if bf.language != hf.language {
                lemma_contribution_pair(p, base, head, 0, bf.language, hf.language);
                lemma_language_rank_injective(bf.language, bf.language);
                lemma_language_rank_injective(hf.language, hf.language);
            } else {
                lemma_contribution_pair(p, base, head, 0, hf.language, other_language(hf.language));
                lemma_language_rank_injective(hf.language, hf.language);
                lemma_language_rank_injective(other_language(hf.language), other_language(hf.language));
            }
        },
        (None, Some(hf)) => {
            lemma_contribution_pair(p, base, head, 0, hf.language, other_language(hf.language));
            lemma_language_rank_injective(hf.language, hf.language);
            lemma_language_rank_injective(other_language(hf.language), other_language(hf.language));
        },
        (Some(bf), None) => {
            lemma_contribution_pair(p, base, head, 0, bf.language, other_language(bf.language));
            lemma_language_rank_injective(bf.language, bf.language);
            lemma_language_rank_injective(other_language(bf.language), other_language(bf.language));
        },
        (None, None) => {
            lemma_contribution_pair(p, base, head, 0, Language::Rust, Language::Python);
        },
    }
}

proof fn lemma_sums_total(ps: Seq<String>, base: Seq<ScanFileResult>, head: Seq<ScanFileResult>)
    ensures
        sums_from(ps, base, head, 0) == ({
            let t = entries_total(diff_entries(ps, base, head));
            (t.0, t.1, t.2)
        }),
    decreases ps.len(),
{
    if ps.len() == 0 {
        lemma_sums_empty(ps, base, head, 0);
    } else {
        lemma_sums_total(ps.drop_last(), base, head);
        lemma_sums_step(ps, base, head, 0);
        lemma_contribution_total(ps.last(), base, head);
        let d = diff_entries(ps.drop_last(), base, head);
        match diff_entry(ps.last(), base, head) {
            Some(e) => {
                assert(d.push(e).drop_last() =~= d);
            },
            None => {},
        }
    }
}

proof fn lemma_sums_empty(ps: Seq<String>, base: Seq<ScanFileResult>, head: Seq<ScanFileResult>, r: nat)
    requires
        ps.len() == 0,
    ensures
        sums_from(ps, base, head, r) == (0int, 0int, 0int),
    decreases LANGUAGE_COUNT - r,
{
    if r < LANGUAGE_COUNT {
        lemma_sums_empty(ps, base, head, r + 1);
    }
}

proof fn lemma_deltas_from_sum(ps: Seq<String>, base: Seq<ScanFileResult>, head: Seq<ScanFileResult>, r: nat)
    requires
        forall|l: Language| #![trigger language_sum(ps, base, head, l)]
            0 <= language_sum(ps, base, head, l).1 <= u64::MAX
            && 0 <= language_sum(ps, base, head, l).2 <= u64::MAX
            && i128::MIN <= language_sum(ps, base, head, l).3 <= i128::MAX,
    ensures
        delta_sum(language_deltas_from(ps, base, head, r)) == sums_from(ps, base, head, r),
    decreases LANGUAGE_COUNT - r,
{
    if r < LANGUAGE_COUNT {
        lemma_deltas_from_sum(ps, base, head, r + 1);
        let l = Language::spec_from_rank(r as int);
        let t = language_sum(ps, base, head, l);
        lemma_untouched_zero(ps, base, head, l);
        let here = if t.0 {
            seq![LanguageDelta { name: l, tokens: crate::diff::TokenDelta { added: t.1 as u64, removed: t.2 as u64, net: t.3 as i128 } }]
        } else {
            Seq::empty()
        };
        assert(language_deltas_from(ps, base, head, r) == here + language_deltas_from(ps, base, head, r + 1));
        lemma_delta_sum_concat(here, language_deltas_from(ps, base, head, r + 1));
        if t.0 {
            assert(0 <= t.1 <= u64::MAX && 0 <= t.2 <= u64::MAX && i128::MIN <= t.3 <= i128::MAX);
            assert(here.drop_last() =~= Seq::<LanguageDelta>::empty());
            assert(delta_sum(here.drop_last()) == (0int, 0int, 0int));
            assert(here.last().tokens.added == t.1);
            assert(delta_sum(here) == (t.1, t.2, t.3));
        } else {
            assert(delta_sum(here) == (0int, 0int, 0int));
        }
    }
}

/// The per-language deltas of a comparison add up to its total delta: every
/// token added or removed is counted under exactly one language.
pub proof fn law_language_deltas_sum_to_total(d: DiffResult, base: ScanResult, head: ScanResult)
    requires
        compares(d, base, head),
    ensures
        delta_sum(d.languages@) == (d.tokens.added as int, d.tokens.removed as int, d.tokens.net as int),
{
    let bs = base.files@;
    let hs = head.files@;
    let ps = union_paths(bs, hs);
    assert forall|l: Language| #![trigger language_sum(ps, bs, hs, l)]
        0 <= language_sum(ps, bs, hs, l).1 <= u64::MAX
        && 0 <= language_sum(ps, bs, hs, l).2 <= u64::MAX
        && i128::MIN <= language_sum(ps, bs, hs, l).3 <= i128::MAX by {
        lemma_language_sum_bounded(ps, bs, hs, l);
    }
    lemma_deltas_from_sum(ps, bs, hs, 0);
    lemma_delta_sum_sorted(language_deltas_from(ps, bs, hs, 0));
    lemma_sums_total(ps, bs, hs);
}

/// The net change of a comparison is what it added minus what it removed.
pub proof fn law_net_is_added_minus_removed(d: DiffResult, base: ScanResult, head: ScanResult)
    requires
        compares(d, base, head),
    ensures
        d.tokens.net == d.tokens.added - d.tokens.removed,
        forall|k: int| 0 <= k < d.files@.len() ==> #[trigger] d.files@[k].tokens.net
            == d.files@[k].tokens.added - d.files@[k].tokens.removed,
{
    let ps = union_paths(base.files@, head.files@);
    lemma_entries_net(ps, base.files@, head.files@);
    lemma_entries_total_net(diff_entries(ps, base.files@, head.files@));
}

/// The token count recorded for one side of a file entry, zero when absent.
pub open spec fn side_tokens(t: Option<u64>) -> int {
    match t {
        Some(n) => n as int,
        None => 0,
    }
}

proof fn lemma_entries_changed(ps: Seq<String>, base: Seq<ScanFileResult>, head: Seq<ScanFileResult>)
    ensures
        forall|k: int| 0 <= k < diff_entries(ps, base, head).len() ==> side_tokens(
            #[trigger] diff_entries(ps, base, head)[k].base_tokens,
        ) != side_tokens(diff_entries(ps, base, head)[k].head_tokens),
    decreases ps.len(),
{
    if ps.len() > 0 {
        lemma_entries_changed(ps.drop_last(), base, head);
    }
}

/// A comparison reports only files whose token count changed.
pub proof fn law_reported_files_changed(d: DiffResult, base: ScanResult, head: ScanResult)
    requires
        compares(d, base, head),
    ensures
        forall|k: int| 0 <= k < d.files@.len() ==> side_tokens(#[trigger] d.files@[k].base_tokens)
            != side_tokens(d.files@[k].head_tokens),
{
    lemma_entries_changed(union_paths(base.files@, head.files@), base.files@, head.files@);
}

proof fn lemma_same_snapshot_entries(ps: Seq<String>, s: Seq<ScanFileResult>)
    ensures
        diff_entries(ps, s, s).len() == 0,
        forall|l: Language| #[trigger] language_sum(ps, s, s, l) == (false, 0int, 0int, 0int),
    decreases ps.len(),
{
    if ps.len() > 0 {
        lemma_same_snapshot_entries(ps.drop_last(), s);
        assert forall|l: Language| #[trigger] language_sum(ps, s, s, l) == (false, 0int, 0int, 0int) by {
            lemma_language_step(ps, s, s, l);
            assert(language_sum(ps.drop_last(), s, s, l) == (false, 0int, 0int, 0int));
        }
    }
}

proof fn lemma_same_snapshot_languages(ps: Seq<String>, s: Seq<ScanFileResult>, r: nat)
    requires
        forall|l: Language| #[trigger] language_sum(ps, s, s, l) == (false, 0int, 0int, 0int),
    ensures
        language_deltas_from(ps, s, s, r).len() == 0,
    decreases LANGUAGE_COUNT - r,
{
    if r < LANGUAGE_COUNT {
        lemma_same_snapshot_languages(ps, s, r + 1);
        assert(language_sum(ps, s, s, Language::spec_from_rank(r as int)).0 == false);
    }
}

/// Comparing a snapshot with itself reports no file, no language and no change.
pub proof fn law_self_comparison_is_empty(d: DiffResult, s: ScanResult)
    requires
        compares(d, s, s),
    ensures
        d.files@.len() == 0,
        d.languages@.len() == 0,
        d.tokens.added == 0,
        d.tokens.removed == 0,
        d.tokens.net == 0,
{
    let ps = union_paths(s.files@, s.files@);
    lemma_same_snapshot_entries(ps, s.files@);
    lemma_same_snapshot_languages(ps, s.files@, 0);
    assert(diff_entries(ps, s.files@, s.files@) =~= Seq::<crate::diff::DiffFileResult>::empty());
    assert(stable_sorted(language_deltas_from(ps, s.files@, s.files@, 0)) == Seq::<LanguageDelta>::empty()) by {
        assert(language_deltas_from(ps, s.files@, s.files@, 0) =~= Seq::<LanguageDelta>::empty());
    }
}

/// Sum of the token counts of a snapshot's files.
pub open spec fn files_total(s: Seq<ScanFileResult>) -> int
    decreases s.len(),
{
    if s.len() == 0 { 0 } else { files_total(s.drop_last()) + s.last().tokens }
}

/// Whether no two files of a snapshot have equal paths.
pub open spec fn paths_distinct(s: Seq<ScanFileResult>) -> bool {
    forall|i: int, j: int| #![trigger s[i], s[j]] 0 <= i < j < s.len() ==> path_order(s[i].path@, s[j].path@) != 0
}

/// Sum of the token counts found in a snapshot for a list of paths.
spec fn lookup_total(ps: Seq<String>, s: Seq<ScanFileResult>) -> int
    decreases ps.len(),
{
    if ps.len() == 0 { 0 } else { lookup_total(ps.drop_last(), s) + tokens_of(lookup(s, ps.last()@)) }
}

/// Number of paths in a list equal to `q` as paths.
spec fn count_equal(ps: Seq<String>, q: Seq<char>) -> int
    decreases ps.len(),
{
    if ps.len() == 0 {
        0
    } else {
        count_equal(ps.drop_last(), q) + if path_order(ps.last()@, q) == 0 { 1int } else { 0int }
    }
}

/// Whether every file of `s` has its path, as a path, in `ps`.
spec fn covers(ps: Seq<String>, s: Seq<ScanFileResult>) -> bool {
    forall|i: int| 0 <= i < s.len() ==> exists|k: int| 0 <= k < ps.len() && path_order(#[trigger] ps[k]@, (#[trigger] s[i]).path@) == 0
}

proof fn lemma_lookup_found(s: Seq<ScanFileResult>, p: Seq<char>)
    ensures
        lookup(s, p) matches Some(g) ==> exists|i: int| 0 <= i < s.len() && s[i] == g && path_order(s[i].path@, p) == 0,
    decreases s.len(),
{
    if s.len() > 0 && path_order(s.last().path@, p) != 0 {
        lemma_lookup_found(s.drop_last(), p);
        if lookup(s, p) is Some {
            let i = choose|i: int| 0 <= i < s.drop_last().len() && s.drop_last()[i] == lookup(s, p)->0
                && path_order(s.drop_last()[i].path@, p) == 0;
            assert(s[i] == s.drop_last()[i]);
        }
    }
}

proof fn lemma_count_none(ps: Seq<String>, q: Seq<char>)
    requires
        forall|k: int| 0 <= k < ps.len() ==> path_order((#[trigger] ps[k])@, q) != 0,
    ensures
        count_equal(ps, q) == 0,
    decreases ps.len(),
{
    if ps.len() > 0 {
        assert forall|k: int| 0 <= k < ps.drop_last().len() implies path_order((#[trigger] ps.drop_last()[k])@, q) != 0 by {
            assert(ps.drop_last()[k] == ps[k]);
        }
        lemma_count_none(ps.drop_last(), q);
        assert(ps.last() == ps[ps.len() - 1]);
    }
}

/// In a strictly ordered list, a path that occurs (as a path) occurs once.
proof fn lemma_count_one(ps: Seq<String>, q: Seq<char>, k: int)
    requires
        strictly_ordered(ps),
        0 <= k < ps.len(),
        path_order(ps[k]@, q) == 0,
    ensures
        count_equal(ps, q) == 1,
    decreases ps.len(),
{
    let n = ps.len() as int;
    let t = ps.drop_last();
    assert(strictly_ordered(t)) by {
        assert forall|i: int, j: int| #![trigger t[i], t[j]] 0 <= i < j < t.len() implies path_order(t[i]@, t[j]@) < 0 by {
            assert(t[i] == ps[i] && t[j] == ps[j]);
        }
    }
    assert(ps.last() == ps[n - 1]);
    if k == n - 1 {
        assert forall|i: int| 0 <= i < t.len() implies path_order((#[trigger] t[i])@, q) != 0 by {
            assert(t[i] == ps[i]);
            assert(path_order(ps[i]@, ps[n - 1]@) < 0);
            lemma_path_order(ps[n - 1]@, q, ps[i]@);
            lemma_path_order(ps[i]@, q, ps[n - 1]@);
            lemma_path_order(q, ps[n - 1]@, ps[i]@);
        }
        lemma_count_none(t, q);
    } else {
        assert(t[k] == ps[k]);
        lemma_count_one(t, q, k);
        assert(path_order(ps[k]@, ps[n - 1]@) < 0);
        lemma_path_order(ps[k]@, q, ps[n - 1]@);
        lemma_path_order(q, ps[n - 1]@, ps[k]@);
        lemma_path_order(ps[n - 1]@, q, ps[k]@);
    }
}

/// Appending a file to a snapshot adds its tokens once for every listed path
/// equal to its own, when no earlier file had that path.
proof fn lemma_lookup_total_push(ps: Seq<String>, s: Seq<ScanFileResult>, f: ScanFileResult)
    requires
        forall|i: int| 0 <= i < s.len() ==> path_order((#[trigger] s[i]).path@, f.path@) != 0,
    ensures
        lookup_total(ps, s.push(f)) == lookup_total(ps, s) + count_equal(ps, f.path@) * f.tokens,
    decreases ps.len(),
{
    if ps.len() > 0 {
        lemma_lookup_total_push(ps.drop_last(), s, f);
        let p = ps.last()@;
        let t = s.push(f);
        assert(t.drop_last() =~= s);
        assert(t.last() == f);
        lemma_path_order(f.path@, p, f.path@);
        lemma_path_order(p, f.path@, p);
        if path_order(p, f.path@) == 0 {
            assert(lookup(t, p) == Some(f));
            lemma_lookup_found(s, p);
            if lookup(s, p) is Some {
                let i = choose|i: int| 0 <= i < s.len() && s[i] == lookup(s, p)->0 && path_order(s[i].path@, p) == 0;
                lemma_path_order(s[i].path@, p, f.path@);
            }
            assert(tokens_of(lookup(s, p)) == 0);
        } else {
            assert(lookup(t, p) == lookup(s, p));
        }
        assert(count_equal(ps, f.path@) * f.tokens == count_equal(ps.drop_last(), f.path@) * f.tokens
            + (if path_order(p, f.path@) == 0 { f.tokens as int } else { 0int })) by (nonlinear_arith)
            requires
                count_equal(ps, f.path@) == count_equal(ps.drop_last(), f.path@) + (if path_order(p, f.path@) == 0 { 1int } else { 0int }),
        ;
    }
}

/// Over a strictly ordered list that holds every path of a snapshot without
/// repeated paths, the looked-up counts add up to the snapshot's total.
proof fn lemma_lookup_total_files(ps: Seq<String>, s: Seq<ScanFileResult>)
    requires
        strictly_ordered(ps),
        paths_distinct(s),
        covers(ps, s),
    ensures
        lookup_total(ps, s) == files_total(s),
    decreases s.len(),
{
    if s.len() == 0 {
        lemma_lookup_total_empty(ps, s);
    } else {
        let t = s.drop_last();
        let f = s.last();
        let n = s.len() as int;
        assert(paths_distinct(t)) by {
            assert forall|i: int, j: int| #![trigger t[i], t[j]] 0 <= i < j < t.len() implies path_order(t[i].path@, t[j].path@) != 0 by {
                assert(t[i] == s[i] && t[j] == s[j]);
            }
        }
        assert(covers(ps, t)) by {
            assert forall|i: int| 0 <= i < t.len() implies exists|k: int| 0 <= k < ps.len() && path_order(#[trigger] ps[k]@, (#[trigger] t[i]).path@) == 0 by {
                assert(t[i] == s[i]);
            }
        }
        lemma_lookup_total_files(ps, t);
        assert forall|i: int| 0 <= i < t.len() implies path_order((#[trigger] t[i]).path@, f.path@) != 0 by {
            assert(t[i] == s[i] && f == s[n - 1]);
        }
        assert(s =~= t.push(f));
        lemma_lookup_total_push(ps, t, f);
        assert(f == s[n - 1]);
        let k = choose|k: int| 0 <= k < ps.len() && path_order(ps[k]@, s[n - 1].path@) == 0;
        lemma_count_one(ps, f.path@, k);
    }
}

proof fn lemma_lookup_total_empty(ps: Seq<String>, s: Seq<ScanFileResult>)
    requires
        s.len() == 0,
    ensures
        lookup_total(ps, s) == 0,
    decreases ps.len(),
{
    if ps.len() > 0 {
        lemma_lookup_total_empty(ps.drop_last(), s);
    }
}

/// The net total of the entries for a list of paths is what the head holds for
/// them minus what the base holds.
proof fn lemma_entries_net_total(ps: Seq<String>, base: Seq<ScanFileResult>, head: Seq<ScanFileResult>)
    ensures
        entries_total(diff_entries(ps, base, head)).2 == lookup_total(ps, head) - lookup_total(ps, base),
    decreases ps.len(),
{
    if ps.len() > 0 {
        lemma_entries_net_total(ps.drop_last(), base, head);
        let d = diff_entries(ps.drop_last(), base, head);
        match diff_entry(ps.last(), base, head) {
            Some(e) => {
                assert(d.push(e).drop_last() =~= d);
                assert(d.push(e).last() == e);
            },
            None => {},
        }
    }
}

/// Every path of a snapshot occurs, as a path, among its distinct paths.
proof fn lemma_distinct_paths_cover(s: Seq<ScanFileResult>)
    ensures
        forall|i: int| 0 <= i < s.len() ==> exists|k: int| 0 <= k < distinct_paths(s).len()
            && path_order(#[trigger] distinct_paths(s)[k]@, (#[trigger] s[i]).path@) == 0,
    decreases s.len(),
{
    if s.len() > 0 {
        let t = s.drop_last();
        let n = s.len() as int;
        lemma_distinct_paths_cover(t);
        let d = distinct_paths(t);
        let r = distinct_paths(s);
        assert forall|i: int| 0 <= i < s.len() implies exists|k: int| 0 <= k < r.len()
            && path_order(#[trigger] r[k]@, (#[trigger] s[i]).path@) == 0 by {
            if seen_before(s, n - 1) {
                assert(r == d);
                let j = if i < n - 1 { i } else { choose|j: int| 0 <= j < n - 1 && path_order((#[trigger] s[j]).path@, s[n - 1].path@) == 0 };
                assert(t[j] == s[j]);
                let k = choose|k: int| 0 <= k < d.len() && path_order(d[k]@, t[j].path@) == 0;
                lemma_path_order(d[k]@, s[j].path@, s[i].path@);
                lemma_path_order(s[j].path@, s[n - 1].path@, s[i].path@);
                assert(path_order(r[k]@, s[i].path@) == 0);
            } else {
                assert(r == d.push(s.last().path));
                if i < n - 1 {
                    assert(t[i] == s[i]);
                    let k = choose|k: int| 0 <= k < d.len() && path_order(d[k]@, t[i].path@) == 0;
                    assert(r[k] == d[k]);
                } else {
                    lemma_path_order(s[i].path@, s[i].path@, s[i].path@);
                    assert(r[d.len() as int] == s[i].path);
                }
            }
        }
    }
}

/// Every element of a sequence occurs in its stable ordering.
proof fn lemma_sorted_keeps<T: SortKey>(s: Seq<T>)
    ensures
        forall|i: int| 0 <= i < s.len() ==> exists|k: int| 0 <= k < stable_sorted(s).len() && #[trigger] stable_sorted(s)[k] == #[trigger] s[i],
    decreases s.len(),
{
    if s.len() > 0 {
        let t = stable_sorted(s.drop_last());
        let x = s.last();
        let n = s.len() as int;
        lemma_sorted_keeps(s.drop_last());
        let k = insertion_index(t, x) as int;
        lemma_insertion_index_bound(t, x);
        let r = t.take(k).push(x) + t.skip(k);
        assert(stable_sorted(s) == r);
        assert forall|i: int| 0 <= i < s.len() implies exists|m: int| 0 <= m < r.len() && #[trigger] r[m] == #[trigger] s[i] by {
            if i == n - 1 {
                assert(r[k] == x);
            } else {
                assert(s.drop_last()[i] == s[i]);
                let j = choose|j: int| 0 <= j < t.len() && t[j] == s.drop_last()[i];
                if j < k {
                    assert(r[j] == t[j]);
                } else {
                    assert(r[j + 1] == t[j]);
                }
            }
        }
    }
}

/// Every path of a sorted list occurs, as a path, after removing adjacent repeats.
proof fn lemma_dedup_covers(s: Seq<String>)
    ensures
        forall|i: int| 0 <= i < s.len() ==> exists|k: int| 0 <= k < dedup_adjacent(s).len()
            && path_order(#[trigger] dedup_adjacent(s)[k]@, (#[trigger] s[i])@) == 0,
    decreases s.len(),
{
    if s.len() > 0 {
        let t = s.drop_last();
        let n = s.len() as int;
        lemma_dedup_covers(t);
        let d = dedup_adjacent(t);
        let r = dedup_adjacent(s);
        assert forall|i: int| 0 <= i < s.len() implies exists|k: int| 0 <= k < r.len()
            && path_order(#[trigger] r[k]@, (#[trigger] s[i])@) == 0 by {
            if n > 1 && path_order(s[n - 2]@, s.last()@) == 0 {
                assert(r == d);
                let j = if i < n - 1 { i } else { n - 2 };
                assert(t[j] == s[j]);
                let k = choose|k: int| 0 <= k < d.len() && path_order(d[k]@, t[j]@) == 0;
                lemma_path_order(d[k]@, s[j]@, s[i]@);
                lemma_path_order(s[j]@, s[n - 1]@, s[i]@);
                assert(s.last() == s[n - 1]);
                lemma_path_order(s[i]@, s[i]@, s[i]@);
                assert(path_order(r[k]@, s[i]@) == 0);
            } else {
                assert(r == d.push(s.last()));
                if i < n - 1 {
                    assert(t[i] == s[i]);
                    let k = choose|k: int| 0 <= k < d.len() && path_order(d[k]@, t[i]@) == 0;
                    assert(r[k] == d[k]);
                } else {
                    lemma_path_order(s[i]@, s[i]@, s[i]@);
                    assert(r[d.len() as int] == s[i]);
                }
            }
        }
    }
}

/// The paths compared hold every path of either snapshot.
proof fn lemma_union_covers(base: Seq<ScanFileResult>, head: Seq<ScanFileResult>)
    ensures
        covers(union_paths(base, head), base),
        covers(union_paths(base, head), head),
{
    let db = distinct_paths(base);
    let dh = distinct_paths(head);
    let all = db + dh;
    let sorted = stable_sorted(all);
    let u = union_paths(base, head);
    lemma_distinct_paths_cover(base);
    lemma_distinct_paths_cover(head);
    lemma_sorted_keeps(all);
    lemma_dedup_covers(sorted);
    assert forall|i: int| 0 <= i < base.len() implies exists|k: int| 0 <= k < u.len() && path_order(#[trigger] u[k]@, (#[trigger] base[i]).path@) == 0 by {
        let a = choose|a: int| 0 <= a < db.len() && path_order(db[a]@, base[i].path@) == 0;
        assert(all[a] == db[a]);
        let m = choose|m: int| 0 <= m < sorted.len() && sorted[m] == all[a];
        let k = choose|k: int| 0 <= k < u.len() && path_order(u[k]@, sorted[m]@) == 0;
        lemma_path_order(u[k]@, sorted[m]@, base[i].path@);
    }
    assert forall|i: int| 0 <= i < head.len() implies exists|k: int| 0 <= k < u.len() && path_order(#[trigger] u[k]@, (#[trigger] head[i]).path@) == 0 by {
        let a = choose|a: int| 0 <= a < dh.len() && path_order(dh[a]@, head[i].path@) == 0;
        assert(all[db.len() + a] == dh[a]);
        let m = choose|m: int| 0 <= m < sorted.len() && sorted[m] == all[db.len() + a];
        let k = choose|k: int| 0 <= k < u.len() && path_order(u[k]@, sorted[m]@) == 0;
        lemma_path_order(u[k]@, sorted[m]@, head[i].path@);
    }
}

/// The net change of a comparison is the head snapshot's token total minus the
/// base snapshot's, for snapshots that list no path twice.
pub proof fn law_net_is_head_minus_base(d: DiffResult, base: ScanResult, head: ScanResult)
    requires
        compares(d, base, head),
        paths_distinct(base.files@),
        paths_distinct(head.files@),
    ensures
        d.tokens.net == files_total(head.files@) - files_total(base.files@),
{
    let bs = base.files@;
    let hs = head.files@;
    let ps = union_paths(bs, hs);
    lemma_string_order();
    lemma_stable_sorted_is_sorted(distinct_paths(bs) + distinct_paths(hs));
    lemma_dedup_ordered(stable_sorted(distinct_paths(bs) + distinct_paths(hs)));
    lemma_union_covers(bs, hs);
    lemma_lookup_total_files(ps, bs);
    lemma_lookup_total_files(ps, hs);
    lemma_entries_net_total(ps, bs, hs);
}

proof fn lemma_entries_side_net(ps: Seq<String>, base: Seq<ScanFileResult>, head: Seq<ScanFileResult>)
    ensures
        forall|k: int| 0 <= k < diff_entries(ps, base, head).len() ==> (#[trigger] diff_entries(ps, base, head)[k]).tokens.net
            == side_tokens(diff_entries(ps, base, head)[k].head_tokens) - side_tokens(
            diff_entries(ps, base, head)[k].base_tokens,
        ),
    decreases ps.len(),
{
    if ps.len() > 0 {
        lemma_entries_side_net(ps.drop_last(), base, head);
        let d = diff_entries(ps.drop_last(), base, head);
        match diff_entry(ps.last(), base, head) {
            Some(e) => {
                let r = d.push(e);
                assert(e.tokens.net == side_tokens(e.head_tokens) - side_tokens(e.base_tokens));
                assert forall|k: int| 0 <= k < r.len() implies (#[trigger] r[k]).tokens.net == side_tokens(
                    r[k].head_tokens,
                ) - side_tokens(r[k].base_tokens) by {
                    if k < d.len() {
                        assert(r[k] == d[k]);
                    }
                }
            },
            None => {},
        }
    }
}

/// Each reported file's net change is its head count minus its base count, a
/// side where the file is absent counting as zero.
pub proof fn law_entry_net_is_head_minus_base(d: DiffResult, base: ScanResult, head: ScanResult)
    requires
        compares(d, base, head),
    ensures
        forall|k: int| 0 <= k < d.files@.len() ==> (#[trigger] d.files@[k]).tokens.net == side_tokens(
            d.files@[k].head_tokens,
        ) - side_tokens(d.files@[k].base_tokens),
{
    lemma_entries_side_net(union_paths(base.files@, head.files@), base.files@, head.files@);
}

/// The positive part of an integer.
pub open spec fn positive_part(x: int) -> int {
    if x > 0 { x } else { 0 }
}

/// Whether the files behind a reported path change language between the snapshots.
pub open spec fn reclassified(p: Seq<char>, base: Seq<ScanFileResult>, head: Seq<ScanFileResult>) -> bool {
    lookup(base, p) matches Some(b) && lookup(head, p) matches Some(h) && b.language != h.language
}

/// Whether a reported entry splits its change as the comparison promises: a
/// reclassified file is removed whole and added whole; otherwise the growth is
/// added and the shrinkage removed, so only one of them is non-zero.
pub open spec fn entry_split(e: DiffFileResult, base: Seq<ScanFileResult>, head: Seq<ScanFileResult>) -> bool {
    let b = side_tokens(e.base_tokens);
    let h = side_tokens(e.head_tokens);
    if reclassified(e.path@, base, head) {
        e.tokens.added == h && e.tokens.removed == b
    } else {
        e.tokens.added == positive_part(h - b) && e.tokens.removed == positive_part(b - h)
    }
}

proof fn lemma_entries_split(ps: Seq<String>, base: Seq<ScanFileResult>, head: Seq<ScanFileResult>)
    ensures
        forall|k: int| 0 <= k < diff_entries(ps, base, head).len() ==> entry_split(
            #[trigger] diff_entries(ps, base, head)[k],
            base,
            head,
        ),
    decreases ps.len(),
{
    if ps.len() > 0 {
        lemma_entries_split(ps.drop_last(), base, head);
        let d = diff_entries(ps.drop_last(), base, head);
        match diff_entry(ps.last(), base, head) {
            Some(e) => {
                let r = d.push(e);
                assert(entry_split(e, base, head));
                assert forall|k: int| 0 <= k < r.len() implies entry_split(#[trigger] r[k], base, head) by {
                    if k < d.len() {
                        assert(r[k] == d[k]);
                    }
                }
            },
            None => {},
        }
    }
}

/// How a comparison splits each file's change: for a file whose language is the
/// same in both snapshots (or that is in only one), `added` is the growth
/// `max(head - base, 0)` and `removed` the shrinkage `max(base - head, 0)`, so at
/// most one of them is non-zero; a file whose language changed is removed whole
/// and added whole.
pub proof fn law_entry_added_and_removed(d: DiffResult, base: ScanResult, head: ScanResult)
    requires
        compares(d, base, head),
    ensures
        forall|k: int| 0 <= k < d.files@.len() && !reclassified((#[trigger] d.files@[k]).path@, base.files@, head.files@)
            ==> d.files@[k].tokens.added == positive_part(
            side_tokens(d.files@[k].head_tokens) - side_tokens(d.files@[k].base_tokens),
        ) && d.files@[k].tokens.removed == positive_part(
            side_tokens(d.files@[k].base_tokens) - side_tokens(d.files@[k].head_tokens),
        ) && (d.files@[k].tokens.added == 0 || d.files@[k].tokens.removed == 0),
        forall|k: int| 0 <= k < d.files@.len() && reclassified((#[trigger] d.files@[k]).path@, base.files@, head.files@)
            ==> d.files@[k].tokens.added == side_tokens(d.files@[k].head_tokens) && d.files@[k].tokens.removed
            == side_tokens(d.files@[k].base_tokens),
{
    lemma_entries_split(union_paths(base.files@, head.files@), base.files@, head.files@);
    assert forall|k: int| 0 <= k < d.files@.len() implies entry_split(#[trigger] d.files@[k], base.files@, head.files@) by {
    }
}

} // verus!
