//! Token-footprint comparison between complete scan snapshots.

use vstd::prelude::*;

use crate::aggregate::{ScanFileResult, ScanResult, ScanTotals, SkippedSummary};
use crate::chars::{chars_of, str_eq};
use crate::classify::{LANGUAGE_COUNT, Language, lemma_language_rank_injective};
use crate::error::DiffError;
use crate::file::InvalidUtf8Policy;
use crate::path::{chars_order, compare_chars, compare_paths, path_order};
use crate::sort::{SortKey, stable_sort, stable_sorted};
use crate::text_policy::TextPolicyMetadata;
use crate::tokenizer::TokenizerMetadata;

verus! {

/// Added, removed, and net token footprint for one comparison scope.
#[derive(Clone, Copy, Debug, PartialEq, Eq, Structural)]
pub struct TokenDelta {
    /// Token count introduced by files whose footprint grew.
    pub added: u64,
    /// Token count removed by files whose footprint shrank.
    pub removed: u64,
    /// Signed change from the base snapshot to the head snapshot.
    pub net: i128,
}

impl Default for TokenDelta {
    fn default() -> (r: Self)
        ensures
            r == (TokenDelta { added: 0, removed: 0, net: 0 }),
    {
        TokenDelta { added: 0, removed: 0, net: 0 }
    }
}

/// The delta from a base count to a head count.
pub open spec fn spec_between(base: u64, head: u64) -> TokenDelta {
    if head >= base {
        TokenDelta { added: (head - base) as u64, removed: 0, net: (head - base) as i128 }
    } else {
        TokenDelta { added: 0, removed: (base - head) as u64, net: (head - base) as i128 }
    }
}

impl TokenDelta {
    /// The delta from a base count to a head count.
    pub fn between(base: u64, head: u64) -> (r: Self)
        ensures
            r == spec_between(base, head),
    {
        if head >= base {
            let added = head - base;
            TokenDelta { added, removed: 0, net: added as i128 }
        } else {
            let removed = base - head;
            TokenDelta { added: 0, removed, net: -(removed as i128) }
        }
    }

    /// Accumulate another delta into this one.
    pub fn add(&mut self, other: TokenDelta)
        requires
            old(self).added + other.added <= u64::MAX,
            old(self).removed + other.removed <= u64::MAX,
            i128::MIN <= old(self).net + other.net <= i128::MAX,
        ensures
            final(self).added == old(self).added + other.added,
            final(self).removed == old(self).removed + other.removed,
            final(self).net == old(self).net + other.net,
    {
        self.added = self.added + other.added;
        self.removed = self.removed + other.removed;
        self.net = self.net + other.net;
    }
}

/// Aggregate token delta for one language family.
#[derive(Clone, Copy, Debug, PartialEq, Eq, Structural)]
pub struct LanguageDelta {
    /// Language or text family.
    pub name: Language,
    /// Token footprint change for this language.
    pub tokens: TokenDelta,
}

/// Token-footprint change for one normalized logical path.
#[derive(Debug, PartialEq, Eq)]
pub struct DiffFileResult {
    /// Logical file path shared across the snapshots.
    pub path: String,
    /// Path-based language classification.
    pub language: Language,
    /// Token count in the base, or `None` for a new file.
    pub base_tokens: Option<u64>,
    /// Token count in the head, or `None` for a removed file.
    pub head_tokens: Option<u64>,
    /// Token footprint change for this path.
    pub tokens: TokenDelta,
}

/// Deterministic comparison of two complete scan snapshots.
#[derive(Debug, PartialEq, Eq)]
pub struct DiffResult {
    /// Stable identity of the selected tokenizer.
    pub tokenizer: TokenizerMetadata,
    /// Versioned text transformation shared by both snapshots.
    pub text_policy: TextPolicyMetadata,
    /// Invalid UTF-8 policy shared by both snapshots.
    pub invalid_utf8: InvalidUtf8Policy,
    /// Totals in the base snapshot.
    pub base: ScanTotals,
    /// Totals in the head snapshot.
    pub head: ScanTotals,
    /// Token footprint change across all paths.
    pub tokens: TokenDelta,
    /// Changed language totals sorted by impact descending, then name.
    pub languages: Vec<LanguageDelta>,
    /// Changed files sorted by normalized logical path.
    pub files: Vec<DiffFileResult>,
    /// Omission accounting from the base snapshot.
    pub base_skipped: SkippedSummary,
    /// Omission accounting from the head snapshot.
    pub head_skipped: SkippedSummary,
}

impl SortKey for String {
    open spec fn spec_after(&self, other: &Self) -> bool {
        path_order(self@, other@) > 0
    }

    fn after(&self, other: &Self) -> (r: bool) {
        compare_paths(self.as_str(), other.as_str()) > 0
    }
}

/// Impact of a language delta: tokens added plus tokens removed.
pub open spec fn impact(d: TokenDelta) -> int {
    d.added + d.removed
}

impl SortKey for LanguageDelta {
    open spec fn spec_after(&self, other: &Self) -> bool {
        impact(self.tokens) < impact(other.tokens) || (impact(self.tokens) == impact(other.tokens)
            && chars_order(self.name.spec_name(), other.name.spec_name()) > 0)
    }

    fn after(&self, other: &Self) -> (r: bool) {
        let a = (self.tokens.added as u128) + (self.tokens.removed as u128);
        let b = (other.tokens.added as u128) + (other.tokens.removed as u128);
        if a != b {
            a < b
        } else {
            let x = chars_of(self.name.as_str());
            let y = chars_of(other.name.as_str());
            compare_chars(x.as_slice(), y.as_slice()) > 0
        }
    }
}

/// The last file of a snapshot whose path equals `p` as a path.
pub open spec fn lookup(s: Seq<ScanFileResult>, p: Seq<char>) -> Option<ScanFileResult>
    decreases s.len(),
{
    if s.len() == 0 {
        None
    } else if path_order(s.last().path@, p) == 0 {
        Some(s.last())
    } else {
        lookup(s.drop_last(), p)
    }
}

/// Whether a file earlier than index `i` has a path equal to that of file `i`.
pub open spec fn seen_before(s: Seq<ScanFileResult>, i: int) -> bool {
    exists|j: int| 0 <= j < i && path_order(s[j].path@, s[i].path@) == 0
}

/// The paths of a snapshot, one per distinct path, as first written.
pub open spec fn distinct_paths(s: Seq<ScanFileResult>) -> Seq<String>
    decreases s.len(),
{
    if s.len() == 0 {
        Seq::empty()
    } else {
        let d = distinct_paths(s.drop_last());
        if seen_before(s, s.len() - 1) {
            d
        } else {
            d.push(s.last().path)
        }
    }
}

/// An ordered list of paths with each run of equal paths reduced to its first member.
pub open spec fn dedup_adjacent(s: Seq<String>) -> Seq<String>
    decreases s.len(),
{
    if s.len() == 0 {
        s
    } else {
        let d = dedup_adjacent(s.drop_last());
        if s.len() > 1 && path_order(s[s.len() - 2]@, s.last()@) == 0 {
            d
        } else {
            d.push(s.last())
        }
    }
}

/// Every path of either snapshot, in path order, once.
pub open spec fn union_paths(base: Seq<ScanFileResult>, head: Seq<ScanFileResult>) -> Seq<String> {
    dedup_adjacent(stable_sorted(distinct_paths(base) + distinct_paths(head)))
}

/// The token count of an optional file, zero when absent.
pub open spec fn tokens_of(f: Option<ScanFileResult>) -> u64 {
    match f {
        Some(f) => f.tokens,
        None => 0,
    }
}

/// The delta of one path: a change of language is a full removal plus a full addition.
pub open spec fn path_delta(b: Option<ScanFileResult>, h: Option<ScanFileResult>) -> TokenDelta {
    match (b, h) {
        (Some(b), Some(h)) => if b.language != h.language {
            TokenDelta { added: h.tokens, removed: b.tokens, net: (h.tokens - b.tokens) as i128 }
        } else {
            spec_between(b.tokens, h.tokens)
        },
        _ => spec_between(tokens_of(b), tokens_of(h)),
    }
}

/// The entry reported for one path, or `None` when its token count is unchanged.
pub open spec fn diff_entry(p: String, base: Seq<ScanFileResult>, head: Seq<ScanFileResult>) -> Option<DiffFileResult> {
    let b = lookup(base, p@);
    let h = lookup(head, p@);
    if tokens_of(b) == tokens_of(h) {
        None
    } else {
        Some(
            DiffFileResult {
                path: p,
                language: match h {
                    Some(h) => h.language,
                    None => b->0.language,
                },
                base_tokens: match b {
                    Some(b) => Some(b.tokens),
                    None => None,
                },
                head_tokens: match h {
                    Some(h) => Some(h.tokens),
                    None => None,
                },
                tokens: path_delta(b, h),
            },
        )
    }
}

/// The entries reported for a list of paths, in order.
pub open spec fn diff_entries(ps: Seq<String>, base: Seq<ScanFileResult>, head: Seq<ScanFileResult>) -> Seq<DiffFileResult>
    decreases ps.len(),
{
    if ps.len() == 0 {
        Seq::empty()
    } else {
        let d = diff_entries(ps.drop_last(), base, head);
        match diff_entry(ps.last(), base, head) {
            Some(e) => d.push(e),
            None => d,
        }
    }
}

/// Added, removed and net totals of a list of entries.
pub open spec fn entries_total(es: Seq<DiffFileResult>) -> (int, int, int)
    decreases es.len(),
{
    if es.len() == 0 {
        (0, 0, 0)
    } else {
        let t = entries_total(es.drop_last());
        let d = es.last().tokens;
        (t.0 + d.added, t.1 + d.removed, t.2 + d.net)
    }
}

/// The contribution of one path to the delta of language `l`.
pub open spec fn contribution(p: String, base: Seq<ScanFileResult>, head: Seq<ScanFileResult>, l: Language) -> Option<(int, int, int)> {
    let b = lookup(base, p@);
    let h = lookup(head, p@);
    if tokens_of(b) == tokens_of(h) {
        None
    } else {
        match (b, h) {
            (Some(bf), Some(hf)) => if bf.language != hf.language {
                if l == bf.language {
                    Some((0int, bf.tokens as int, -(bf.tokens as int)))
                } else if l == hf.language {
                    Some((hf.tokens as int, 0int, hf.tokens as int))
                } else {
                    None
                }
            } else if l == hf.language {
                let d = path_delta(b, h);
                Some((d.added as int, d.removed as int, d.net as int))
            } else {
                None
            },
            (None, Some(hf)) => if l == hf.language {
                let d = path_delta(b, h);
                Some((d.added as int, d.removed as int, d.net as int))
            } else {
                None
            },
            (Some(bf), None) => if l == bf.language {
                let d = path_delta(b, h);
                Some((d.added as int, d.removed as int, d.net as int))
            } else {
                None
            },
            (None, None) => None,
        }
    }
}

/// Whether any of the paths touches language `l`, and the summed contributions.
pub open spec fn language_sum(ps: Seq<String>, base: Seq<ScanFileResult>, head: Seq<ScanFileResult>, l: Language) -> (bool, int, int, int)
    decreases ps.len(),
{
    if ps.len() == 0 {
        (false, 0, 0, 0)
    } else {
        let t = language_sum(ps.drop_last(), base, head, l);
        match contribution(ps.last(), base, head, l) {
            Some(c) => (true, t.1 + c.0, t.2 + c.1, t.3 + c.2),
            None => t,
        }
    }
}

/// The deltas of the touched languages at ranks `r` and above, in rank order.
pub open spec fn language_deltas_from(ps: Seq<String>, base: Seq<ScanFileResult>, head: Seq<ScanFileResult>, r: nat) -> Seq<LanguageDelta>
    decreases LANGUAGE_COUNT - r,
{
    if r >= LANGUAGE_COUNT {
        Seq::empty()
    } else {
        let l = Language::spec_from_rank(r as int);
        let t = language_sum(ps, base, head, l);
        let here = if t.0 {
            seq![LanguageDelta { name: l, tokens: TokenDelta { added: t.1 as u64, removed: t.2 as u64, net: t.3 as i128 } }]
        } else {
            Seq::empty()
        };
        here + language_deltas_from(ps, base, head, r + 1)
    }
}

/// Whether two snapshots were measured under the same counting semantics.
pub open spec fn compatible(base: ScanResult, head: ScanResult) -> bool {
    &&& base.tokenizer.fingerprint@ == head.tokenizer.fingerprint@
    &&& base.text_policy.mode@ == head.text_policy.mode@
    &&& base.text_policy.version == head.text_policy.version
    &&& base.invalid_utf8 == head.invalid_utf8
}

/// The reason two snapshots cannot be compared, in the order the checks are made.
pub open spec fn incompatibility(base: ScanResult, head: ScanResult) -> Seq<char> {
    if base.tokenizer.fingerprint@ != head.tokenizer.fingerprint@ {
        "tokenizers"@
    } else if !(base.text_policy.mode@ == head.text_policy.mode@ && base.text_policy.version
        == head.text_policy.version) {
        "text policies"@
    } else {
        "invalid UTF-8 policies"@
    }
}

/// Whether the totals of a comparison fit the public delta representation.
pub open spec fn diff_fits(base: ScanResult, head: ScanResult) -> bool {
    let t = entries_total(diff_entries(union_paths(base.files@, head.files@), base.files@, head.files@));
    t.0 <= u64::MAX && t.1 <= u64::MAX
}

/// Whether `r` is the comparison of `base` with `head`.
pub open spec fn compares(r: DiffResult, base: ScanResult, head: ScanResult) -> bool {
    let ps = union_paths(base.files@, head.files@);
    let es = diff_entries(ps, base.files@, head.files@);
    let t = entries_total(es);
    &&& r.tokenizer == base.tokenizer
    &&& r.text_policy == base.text_policy
    &&& r.invalid_utf8 == base.invalid_utf8
    &&& r.base == base.totals
    &&& r.head == head.totals
    &&& r.tokens.added == t.0
    &&& r.tokens.removed == t.1
    &&& r.tokens.net == t.2
    &&& r.files@ == es
    &&& r.languages@ == stable_sorted(language_deltas_from(ps, base.files@, head.files@, 0))
    &&& r.base_skipped.same_as(&base.skipped)
    &&& r.head_skipped.same_as(&head.skipped)
}

} // verus!

verus! {

proof fn lemma_delta_net(b: Option<ScanFileResult>, h: Option<ScanFileResult>)
    ensures
        path_delta(b, h).net == path_delta(b, h).added - path_delta(b, h).removed,
{
}

pub(crate) proof fn lemma_entries_total_net(es: Seq<DiffFileResult>)
    requires
        forall|k: int| 0 <= k < es.len() ==> #[trigger] es[k].tokens.net == es[k].tokens.added - es[k].tokens.removed,
    ensures
        entries_total(es).2 == entries_total(es).0 - entries_total(es).1,
        entries_total(es).0 >= 0,
        entries_total(es).1 >= 0,
    decreases es.len(),
{
    if es.len() > 0 {
        assert forall|k: int| 0 <= k < es.drop_last().len() implies #[trigger] es.drop_last()[k].tokens.net
            == es.drop_last()[k].tokens.added - es.drop_last()[k].tokens.removed by {
            assert(es.drop_last()[k] == es[k]);
        }
        lemma_entries_total_net(es.drop_last());
        assert(es.last() == es[es.len() - 1]);
    }
}

pub(crate) proof fn lemma_entries_net(ps: Seq<String>, base: Seq<ScanFileResult>, head: Seq<ScanFileResult>)
    ensures
        forall|k: int| 0 <= k < diff_entries(ps, base, head).len() ==> #[trigger] diff_entries(ps, base, head)[k].tokens.net
            == diff_entries(ps, base, head)[k].tokens.added - diff_entries(ps, base, head)[k].tokens.removed,
    decreases ps.len(),
{
    if ps.len() > 0 {
        lemma_entries_net(ps.drop_last(), base, head);
        let b = lookup(base, ps.last()@);
        let h = lookup(head, ps.last()@);
        lemma_delta_net(b, h);
    }
}

proof fn lemma_prefix_totals(ps: Seq<String>, base: Seq<ScanFileResult>, head: Seq<ScanFileResult>, i: int)
    requires
        0 <= i <= ps.len(),
    ensures
        entries_total(diff_entries(ps.take(i), base, head)).0 <= entries_total(diff_entries(ps, base, head)).0,
        entries_total(diff_entries(ps.take(i), base, head)).1 <= entries_total(diff_entries(ps, base, head)).1,
    decreases ps.len() - i,
{
    if i < ps.len() {
        lemma_prefix_totals(ps, base, head, i + 1);
        let q = ps.take(i + 1);
        assert(q.drop_last() =~= ps.take(i));
        let d = diff_entries(ps.take(i), base, head);
        match diff_entry(q.last(), base, head) {
            Some(e) => {
                assert(d.push(e).drop_last() =~= d);
                assert(diff_entries(q, base, head) == d.push(e));
            },
            None => {
                assert(diff_entries(q, base, head) == d);
            },
        }
    } else {
        assert(ps.take(i) =~= ps);
    }
}

pub(crate) proof fn lemma_language_sum_bounded(ps: Seq<String>, base: Seq<ScanFileResult>, head: Seq<ScanFileResult>, l: Language)
    ensures
        0 <= language_sum(ps, base, head, l).1 <= entries_total(diff_entries(ps, base, head)).0,
        0 <= language_sum(ps, base, head, l).2 <= entries_total(diff_entries(ps, base, head)).1,
        language_sum(ps, base, head, l).3 == language_sum(ps, base, head, l).1 - language_sum(ps, base, head, l).2,
    decreases ps.len(),
{
    if ps.len() > 0 {
        lemma_language_sum_bounded(ps.drop_last(), base, head, l);
        let d = diff_entries(ps.drop_last(), base, head);
        match diff_entry(ps.last(), base, head) {
            Some(e) => {
                assert(d.push(e).drop_last() =~= d);
                assert(diff_entries(ps, base, head) == d.push(e));
                assert(entries_total(d.push(e)).0 == entries_total(d).0 + e.tokens.added);
                assert(entries_total(d.push(e)).1 == entries_total(d).1 + e.tokens.removed);
            },
            None => {
                assert(diff_entries(ps, base, head) == d);
            },
        }
    }
}

/// Check that two snapshots were measured under the same counting semantics.
pub fn ensure_compatible(base: &ScanResult, head: &ScanResult) -> (r: Result<(), DiffError>)
    ensures
        compatible(*base, *head) ==> r is Ok,
        !compatible(*base, *head) ==> (r matches Err(DiffError::IncompatibleSemantics(what)) && what@
            == incompatibility(*base, *head)),
{
    if !str_eq(base.tokenizer.fingerprint.as_str(), head.tokenizer.fingerprint.as_str()) {
        return Err(DiffError::IncompatibleSemantics("tokenizers"));
    }
    if !(str_eq(base.text_policy.mode, head.text_policy.mode) && base.text_policy.version
        == head.text_policy.version) {
        return Err(DiffError::IncompatibleSemantics("text policies"));
    }
    if base.invalid_utf8 != head.invalid_utf8 {
        return Err(DiffError::IncompatibleSemantics("invalid UTF-8 policies"));
    }
    Ok(())
}

fn seen_before_exec(files: &Vec<ScanFileResult>, i: usize) -> (r: bool)
    requires
        i < files.len(),
    ensures
        r == seen_before(files@, i as int),
{
    let mut j: usize = 0;
    while j < i
        invariant
            i < files.len(),
            j <= i,
            forall|k: int| 0 <= k < j ==> path_order(files@[k].path@, files@[i as int].path@) != 0,
        decreases i - j,
    {
        if compare_paths(files[j].path.as_str(), files[i].path.as_str()) == 0 {
            return true;
        }
        j += 1;
    }
    false
}

/// The paths of a snapshot, one per distinct path, as first written.
pub fn distinct_paths_of(files: &Vec<ScanFileResult>) -> (r: Vec<String>)
    ensures
        r@ == distinct_paths(files@),
{
    let mut out: Vec<String> = Vec::new();
    let mut i: usize = 0;
    assert(files@.take(0) =~= Seq::<ScanFileResult>::empty());
    while i < files.len()
        invariant
            i <= files.len(),
            out@ == distinct_paths(files@.take(i as int)),
        decreases files.len() - i,
    {
        let seen = seen_before_exec(files, i);
        proof {
            let t = files@.take(i as int + 1);
            assert(t.drop_last() =~= files@.take(i as int));
            assert(seen_before(t, i as int) == seen_before(files@, i as int)) by {
                if seen_before(files@, i as int) {
                    let j = choose|j: int| 0 <= j < i && path_order(files@[j].path@, files@[i as int].path@) == 0;
                    assert(t[j] == files@[j]);
                }
                if seen_before(t, i as int) {
                    let j = choose|j: int| 0 <= j < i && path_order(t[j].path@, t[i as int].path@) == 0;
                    assert(t[j] == files@[j]);
                }
            }
        }
        if !seen {
            out.push(files[i].path.clone());
        }
        i += 1;
    }
    assert(files@.take(files.len() as int) =~= files@);
    out
}

/// Reduce each run of equal paths in an ordered list to its first member.
pub fn dedup_paths(sorted: Vec<String>) -> (r: Vec<String>)
    ensures
        r@ == dedup_adjacent(sorted@),
{
    let mut out: Vec<String> = Vec::new();
    let mut i: usize = 0;
    assert(sorted@.take(0) =~= Seq::<String>::empty());
    while i < sorted.len()
        invariant
            i <= sorted.len(),
            out@ == dedup_adjacent(sorted@.take(i as int)),
        decreases sorted.len() - i,
    {
        proof {
            assert(sorted@.take(i as int + 1).drop_last() =~= sorted@.take(i as int));
        }
        if i == 0 || compare_paths(sorted[i - 1].as_str(), sorted[i].as_str()) != 0 {
            out.push(sorted[i].clone());
        }
        i += 1;
    }
    assert(sorted@.take(sorted.len() as int) =~= sorted@);
    out
}

/// Index of the last file whose path equals `p`, if any.
fn lookup_index(files: &Vec<ScanFileResult>, p: &str) -> (r: Option<usize>)
    ensures
        match r {
            Some(i) => i < files.len() && lookup(files@, p@) == Some(files@[i as int]),
            None => lookup(files@, p@) is None,
        },
{
    let mut i: usize = files.len();
    assert(files@.take(files.len() as int) =~= files@);
    while i > 0
        invariant
            i <= files.len(),
            lookup(files@, p@) == lookup(files@.take(i as int), p@),
        decreases i,
    {
        assert(files@.take(i as int).last() == files@[i - 1]);
        if compare_paths(files[i - 1].path.as_str(), p) == 0 {
            return Some(i - 1);
        }
        assert(files@.take(i as int).drop_last() =~= files@.take(i as int - 1));
        i -= 1;
    }
    None
}

} // verus!

verus! {

/// The accumulated per-language state after the paths `q`.
spec fn language_state(
    touched: Seq<bool>,
    deltas: Seq<TokenDelta>,
    q: Seq<String>,
    base: Seq<ScanFileResult>,
    head: Seq<ScanFileResult>,
) -> bool {
    &&& touched.len() == LANGUAGE_COUNT
    &&& deltas.len() == LANGUAGE_COUNT
    &&& forall|l: Language| {
        let t = #[trigger] language_sum(q, base, head, l);
        &&& touched[l.rank()] == t.0
        &&& deltas[l.rank()].added == t.1
        &&& deltas[l.rank()].removed == t.2
        &&& deltas[l.rank()].net == t.3
    }
}

/// The progress of a comparison after the first `i` ordered paths.
spec fn progress(
    ps: Seq<String>,
    i: int,
    base: Seq<ScanFileResult>,
    head: Seq<ScanFileResult>,
    tokens: TokenDelta,
    touched: Seq<bool>,
    deltas: Seq<TokenDelta>,
    files: Seq<DiffFileResult>,
) -> bool {
    &&& 0 <= i <= ps.len()
    &&& files == diff_entries(ps.take(i), base, head)
    &&& tokens.added == entries_total(files).0
    &&& tokens.removed == entries_total(files).1
    &&& tokens.net == entries_total(files).2
    &&& language_state(touched, deltas, ps.take(i), base, head)
}

pub(crate) proof fn lemma_language_step(q: Seq<String>, base: Seq<ScanFileResult>, head: Seq<ScanFileResult>, l: Language)
    requires
        q.len() > 0,
    ensures
        language_sum(q, base, head, l) == ({
            let t = language_sum(q.drop_last(), base, head, l);
            match contribution(q.last(), base, head, l) {
                Some(c) => (true, t.1 + c.0, t.2 + c.1, t.3 + c.2),
                None => t,
            }
        }),
{
}

fn add_language(
    touched: &mut Vec<bool>,
    deltas: &mut Vec<TokenDelta>,
    language: Language,
    delta: TokenDelta,
)
    requires
        old(touched)@.len() == LANGUAGE_COUNT,
        old(deltas)@.len() == LANGUAGE_COUNT,
        old(deltas)@[language.rank()].added + delta.added <= u64::MAX,
        old(deltas)@[language.rank()].removed + delta.removed <= u64::MAX,
        i128::MIN <= old(deltas)@[language.rank()].net + delta.net <= i128::MAX,
    ensures
        final(touched)@ == old(touched)@.update(language.rank(), true),
        final(deltas)@.len() == LANGUAGE_COUNT,
        forall|r: int| 0 <= r < LANGUAGE_COUNT && r != language.rank() ==> final(deltas)@[r] == old(deltas)@[r],
        final(deltas)@[language.rank()].added == old(deltas)@[language.rank()].added + delta.added,
        final(deltas)@[language.rank()].removed == old(deltas)@[language.rank()].removed + delta.removed,
        final(deltas)@[language.rank()].net == old(deltas)@[language.rank()].net + delta.net,
{
    let idx = language.index();
    let mut d = deltas[idx];
    d.add(delta);
    deltas.set(idx, d);
    touched.set(idx, true);
}

/// Account for the path at position `i` of the ordered union of paths.
fn record_path(
    ps: &Vec<String>,
    i: usize,
    base: &ScanResult,
    head: &ScanResult,
    tokens: &mut TokenDelta,
    touched: &mut Vec<bool>,
    deltas: &mut Vec<TokenDelta>,
    files: &mut Vec<DiffFileResult>,
)
    requires
        i < ps.len(),
        progress(ps@, i as int, base.files@, head.files@, *old(tokens), old(touched)@, old(deltas)@, old(files)@),
        entries_total(diff_entries(ps@, base.files@, head.files@)).0 <= u64::MAX,
        entries_total(diff_entries(ps@, base.files@, head.files@)).1 <= u64::MAX,
    ensures
        progress(ps@, i + 1, base.files@, head.files@, *final(tokens), final(touched)@, final(deltas)@, final(files)@),
{
    let ghost bs = base.files@;
    let ghost hs = head.files@;
    let ghost q = ps@.take(i as int + 1);
    let ghost prev = ps@.take(i as int);
    let p = &ps[i];
    let bi = lookup_index(&base.files, p.as_str());
    let hi = lookup_index(&head.files, p.as_str());
    proof {
        assert(q.drop_last() =~= prev);
        assert(q.last() == ps@[i as int]);
        lemma_prefix_totals(ps@, bs, hs, i as int + 1);
        lemma_entries_net(q, bs, hs);
        lemma_entries_total_net(diff_entries(q, bs, hs));
        lemma_entries_net(prev, bs, hs);
        lemma_entries_total_net(files@);
    }
    let bt: u64 = match bi {
        Some(j) => base.files[j].tokens,
        None => 0,
    };
    let ht: u64 = match hi {
        Some(j) => head.files[j].tokens,
        None => 0,
    };
    if bt == ht {
        proof {
            assert(diff_entries(q, bs, hs) == files@);
            assert forall|l: Language| #[trigger] language_sum(q, bs, hs, l) == language_sum(prev, bs, hs, l) by {
                lemma_language_step(q, bs, hs, l);
            }
        }
        return;
    }
    let reclassified = match (bi, hi) {
        (Some(x), Some(y)) => base.files[x].language != head.files[y].language,
        _ => false,
    };
    let delta = if reclassified {
        TokenDelta { added: ht, removed: bt, net: (ht as i128) - (bt as i128) }
    } else {
        TokenDelta::between(bt, ht)
    };
    let language = match (bi, hi) {
        (_, Some(y)) => head.files[y].language,
        (Some(x), None) => base.files[x].language,
        (None, None) => Language::Unknown,
    };
    let entry = DiffFileResult {
        path: p.clone(),
        language,
        base_tokens: match bi {
            Some(x) => Some(base.files[x].tokens),
            None => None,
        },
        head_tokens: match hi {
            Some(y) => Some(head.files[y].tokens),
            None => None,
        },
        tokens: delta,
    };
    proof {
        assert(diff_entry(q.last(), bs, hs) == Some(entry));
        assert(files@.push(entry).drop_last() =~= files@);
        assert(diff_entries(q, bs, hs) == files@.push(entry));
    }
    tokens.add(delta);
    let ghost touched0 = touched@;
    let ghost deltas0 = deltas@;
    let bl = match bi {
        Some(x) => base.files[x].language,
        None => language,
    };
    proof {
        lemma_language_sum_bounded(q, bs, hs, bl);
        lemma_language_sum_bounded(q, bs, hs, language);
        lemma_language_step(q, bs, hs, bl);
        lemma_language_step(q, bs, hs, language);
        lemma_language_rank_injective(bl, language);
        lemma_language_rank_injective(language, bl);
        assert(language_sum(prev, bs, hs, bl) == language_sum(prev, bs, hs, bl));
        assert(language_sum(prev, bs, hs, language) == language_sum(prev, bs, hs, language));
    }
    if reclassified {
        add_language(touched, deltas, bl, TokenDelta::between(bt, 0));
        add_language(touched, deltas, language, TokenDelta::between(0, ht));
    } else {
        add_language(touched, deltas, language, delta);
    }
    files.push(entry);
    proof {
        assert forall|l: Language| {
            let t = #[trigger] language_sum(q, bs, hs, l);
            &&& touched@[l.rank()] == t.0
            &&& deltas@[l.rank()].added == t.1
            &&& deltas@[l.rank()].removed == t.2
            &&& deltas@[l.rank()].net == t.3
        } by {
            lemma_language_step(q, bs, hs, l);
            lemma_language_rank_injective(l, language);
            lemma_language_rank_injective(l, bl);
            assert(language_sum(prev, bs, hs, l) == language_sum(prev, bs, hs, l));
        }
    }
}

/// Compare token footprints from two complete scans rather than patch hunks.
pub fn compare_snapshots(base: &ScanResult, head: &ScanResult) -> (r: Result<DiffResult, DiffError>)
    requires
        compatible(*base, *head) ==> diff_fits(*base, *head),
    ensures
        compatible(*base, *head) ==> (r matches Ok(d) && compares(d, *base, *head)),
        !compatible(*base, *head) ==> (r matches Err(DiffError::IncompatibleSemantics(what)) && what@
            == incompatibility(*base, *head)),
{
    match ensure_compatible(base, head) {
        Ok(()) => {},
        Err(e) => {
            return Err(e);
        },
    }
    let ghost bs = base.files@;
    let ghost hs = head.files@;
    let mut all = distinct_paths_of(&base.files);
    let mut head_paths = distinct_paths_of(&head.files);
    all.append(&mut head_paths);
    let sorted = stable_sort(all);
    let ps = dedup_paths(sorted);
    let mut tokens = TokenDelta::default();
    let mut touched: Vec<bool> = Vec::new();
    let mut deltas: Vec<TokenDelta> = Vec::new();
    let mut k: usize = 0;
    while k < LANGUAGE_COUNT
        invariant
            k <= LANGUAGE_COUNT,
            touched@.len() == k,
            deltas@.len() == k,
            forall|r: int| 0 <= r < k ==> !touched@[r] && deltas@[r] == (TokenDelta { added: 0, removed: 0, net: 0 }),
        decreases LANGUAGE_COUNT - k,
    {
        touched.push(false);
        deltas.push(TokenDelta::default());
        k += 1;
    }
    let mut files: Vec<DiffFileResult> = Vec::new();
    proof {
        assert(ps@.take(0) =~= Seq::<String>::empty());
        assert forall|l: Language| #[trigger] language_sum(ps@.take(0), bs, hs, l) == (false, 0int, 0int, 0int) by {
            lemma_language_rank_injective(l, l);
        }
        assert(language_state(touched@, deltas@, ps@.take(0), bs, hs)) by {
            assert forall|l: Language| #[trigger] language_sum(ps@.take(0), bs, hs, l) == (false, 0int, 0int, 0int)
                implies touched@[l.rank()] == false by {
                lemma_language_rank_injective(l, l);
            }
            assert forall|l: Language| #[trigger] language_sum(ps@.take(0), bs, hs, l) == (false, 0int, 0int, 0int)
                implies deltas@[l.rank()] == (TokenDelta { added: 0, removed: 0, net: 0 }) by {
                lemma_language_rank_injective(l, l);
            }
        }
    }
    let mut i: usize = 0;
    while i < ps.len()
        invariant
            bs == base.files@,
            hs == head.files@,
            diff_fits(*base, *head),
            ps@ == union_paths(bs, hs),
            progress(ps@, i as int, bs, hs, tokens, touched@, deltas@, files@),
        decreases ps.len() - i,
    {
        record_path(&ps, i, base, head, &mut tokens, &mut touched, &mut deltas, &mut files);
        i += 1;
    }
    assert(ps@.take(ps.len() as int) =~= ps@);
    let mut entries: Vec<LanguageDelta> = Vec::new();
    let mut r: usize = 0;
    while r < LANGUAGE_COUNT
        invariant
            bs == base.files@,
            hs == head.files@,
            r <= LANGUAGE_COUNT,
            language_state(touched@, deltas@, ps@, bs, hs),
            entries@ + language_deltas_from(ps@, bs, hs, r as nat) == language_deltas_from(ps@, bs, hs, 0),
        decreases LANGUAGE_COUNT - r,
    {
        let name = Language::from_index(r);
        proof {
            assert(language_sum(ps@, bs, hs, name) == language_sum(ps@, bs, hs, name));
        }
        if touched[r] {
            entries.push(LanguageDelta { name, tokens: deltas[r] });
        }
        assert(entries@ + language_deltas_from(ps@, bs, hs, (r + 1) as nat) =~= language_deltas_from(ps@, bs, hs, 0));
        r += 1;
    }
    assert(entries@ =~= language_deltas_from(ps@, bs, hs, 0));
    let languages = stable_sort(entries);
    Ok(DiffResult {
        tokenizer: base.tokenizer.clone(),
        text_policy: base.text_policy,
        invalid_utf8: base.invalid_utf8,
        base: base.totals,
        head: head.totals,
        tokens,
        languages,
        files,
        base_skipped: base.skipped.clone(),
        head_skipped: head.skipped.clone(),
    })
}

} // verus!
