//! Discovery decisions: include/exclude glob filters, the forward-slash form
//! that globs are matched against, and deduplication of discovered paths by
//! their normalized identity.

use vstd::prelude::*;

use crate::cache::{clean_path, cleaned_path, join, join_path};
use crate::chars::{chars_of, concat, string_of};
use crate::error::ScanError;
use crate::file::{SkipDetail, SkipReason};
use crate::path::{
    ComponentView, PathComponent, components, components_view, cur_rank, parent_rank,
    path_components, path_order, root_rank,
};
use crate::sort::{SortKey, stable_sort, stable_sorted};

verus! {

/// What `globset::Glob::new(pattern)` reports: `None` for a valid pattern,
/// otherwise the error's message.
pub uninterp spec fn glob_problem(pattern: Seq<char>) -> Option<Seq<char>>;

/// Whether the glob set holding just `pattern` matches `path`; `None` when such
/// a set cannot be built.
pub uninterp spec fn glob_match(pattern: Seq<char>, path: Seq<char>) -> Option<bool>;

/// `globset::Glob::new(pattern)`, reduced to its error message. The parse is
/// only named.
#[verifier::external_body]
fn glob_error(pattern: &str) -> (r: Option<String>)
    ensures
        match r {
            None => glob_problem(pattern@) is None,
            Some(m) => glob_problem(pattern@) == Some(m@),
        },
{
    match globset::Glob::new(pattern) {
        Ok(_) => None,
        Err(e) => Some(e.to_string()),
    }
}

/// What `GlobSetBuilder::build` reports for the set of the globs that
/// `Glob::new` makes of `patterns`: `None` when the set builds (or when some
/// pattern is not a glob), otherwise the error's message.
pub uninterp spec fn glob_set_problem(patterns: Seq<Seq<char>>) -> Option<Seq<char>>;

/// `GlobSetBuilder::build` for the globs of `patterns`, reduced to its error
/// message. The outcome is only named.
#[verifier::external_body]
fn glob_set_error(patterns: &Vec<String>) -> (r: Option<String>)
    ensures
        match r {
            None => glob_set_problem(patterns@.map_values(|p: String| p@)) is None,
            Some(m) => glob_set_problem(patterns@.map_values(|p: String| p@)) == Some(m@),
        },
{
    let mut builder = globset::GlobSetBuilder::new();
    for pattern in patterns {
        builder.add(globset::Glob::new(pattern).ok()?);
    }
    builder.build().err().map(|error| error.to_string())
}

/// `GlobSet::is_match(path)` for the set built by `GlobSetBuilder` from the one
/// glob `Glob::new(pattern)`; `None` when the glob or the set cannot be built.
/// The outcome is only named.
#[verifier::external_body]
fn glob_is_match(pattern: &str, path: &str) -> (r: Option<bool>)
    ensures
        r == glob_match(pattern@, path@),
{
    let glob = globset::Glob::new(pattern).ok()?;
    let set = globset::GlobSetBuilder::new().add(glob).build().ok()?;
    Some(set.is_match(path))
}

/// The text of one path component.
pub open spec fn component_text(c: ComponentView) -> Seq<char> {
    if c.0 == root_rank() {
        seq!['/']
    } else if c.0 == cur_rank() {
        seq!['.']
    } else if c.0 == parent_rank() {
        seq!['.', '.']
    } else {
        c.1
    }
}

/// Component texts joined by `/`.
pub open spec fn slash_joined(cs: Seq<ComponentView>) -> Seq<char>
    decreases cs.len(),
{
    if cs.len() == 0 {
        Seq::empty()
    } else if cs.len() == 1 {
        component_text(cs[0])
    } else {
        slash_joined(cs.drop_last()) + seq!['/'] + component_text(cs.last())
    }
}

/// The form of a path that globs are matched against: its components joined by `/`.
pub open spec fn forward_slash(path: Seq<char>) -> Seq<char> {
    slash_joined(path_components(path))
}

/// The path that globs see for a discovered path: relative to `cwd` when it
/// lies under it (`Path::strip_prefix`), in forward-slash form.
pub open spec fn match_path(path: Seq<char>, cwd: Seq<char>) -> Seq<char> {
    let pc = path_components(path);
    let bc = path_components(cwd);
    if bc.len() <= pc.len() && pc.take(bc.len() as int) == bc {
        slash_joined(pc.skip(bc.len() as int))
    } else {
        slash_joined(pc)
    }
}

fn component_string(c: &PathComponent) -> (r: Vec<char>)
    ensures
        r@ == component_text(c.view_pair()),
{
    match c.kind {
        crate::path::ComponentKind::RootDir => {
            let mut v: Vec<char> = Vec::new();
            v.push('/');
            assert(v@ =~= seq!['/']);
            v
        },
        crate::path::ComponentKind::CurDir => {
            let mut v: Vec<char> = Vec::new();
            v.push('.');
            assert(v@ =~= seq!['.']);
            v
        },
        crate::path::ComponentKind::ParentDir => {
            let mut v: Vec<char> = Vec::new();
            v.push('.');
            v.push('.');
            assert(v@ =~= seq!['.', '.']);
            v
        },
        crate::path::ComponentKind::Normal => crate::path::clone_chars(&c.name),
    }
}

/// Components from position `from` on, joined by `/`.
pub(crate) fn join_components(cs: &Vec<PathComponent>, from: usize) -> (r: String)
    requires
        from <= cs.len(),
    ensures
        r@ == slash_joined(components_view(cs@).skip(from as int)),
{
    let ghost all = components_view(cs@);
    let mut out: Vec<char> = Vec::new();
    let mut i: usize = from;
    assert(all.skip(from as int).take(0) =~= Seq::<ComponentView>::empty());
    while i < cs.len()
        invariant
            all == components_view(cs@),
            from <= i <= cs.len(),
            out@ == slash_joined(all.skip(from as int).take(i - from)),
        decreases cs.len() - i,
    {
        let part = component_string(&cs[i]);
        let ghost t = all.skip(from as int).take(i - from + 1);
        proof {
            assert(t.drop_last() =~= all.skip(from as int).take(i - from));
            assert(t.last() == cs@[i as int].view_pair());
        }
        if i > from {
            out.push('/');
        }
        let mut k: usize = 0;
        let ghost start = out@;
        while k < part.len()
            invariant
                k <= part.len(),
                out@ == start + part@.take(k as int),
            decreases part.len() - k,
        {
            out.push(part[k]);
            assert(out@ =~= start + part@.take(k as int + 1));
            k += 1;
        }
        assert(part@.take(part.len() as int) =~= part@);
        proof {
            if i > from {
                assert(out@ =~= slash_joined(t.drop_last()) + seq!['/'] + component_text(t.last()));
            } else {
                assert(t.len() == 1);
                assert(out@ =~= component_text(t[0]));
            }
        }
        i += 1;
    }
    assert(all.skip(from as int).take(cs.len() - from) =~= all.skip(from as int));
    string_of(out.as_slice())
}

/// The form of a path that globs are matched against.
pub fn forward_slash_path(path: &str) -> (r: String)
    ensures
        r@ == forward_slash(path@),
{
    let chars = chars_of(path);
    let cs = components(chars.as_slice());
    assert(components_view(cs@).skip(0) =~= components_view(cs@));
    join_components(&cs, 0)
}

/// The path that globs see for a discovered path.
pub fn match_path_of(path: &str, cwd: &str) -> (r: String)
    ensures
        r@ == match_path(path@, cwd@),
{
    let pc_chars = chars_of(path);
    let bc_chars = chars_of(cwd);
    let pc = components(pc_chars.as_slice());
    let bc = components(bc_chars.as_slice());
    let ghost pv = components_view(pc@);
    let ghost bv = components_view(bc@);
    if bc.len() > pc.len() {
        assert(pv.skip(0) =~= pv);
        return join_components(&pc, 0);
    }
    let mut i: usize = 0;
    while i < bc.len()
        invariant
            pv == components_view(pc@),
            bv == components_view(bc@),
            pv == path_components(path@),
            bv == path_components(cwd@),
            bc.len() <= pc.len(),
            i <= bc.len(),
            pv.take(i as int) == bv.take(i as int),
        decreases bc.len() - i,
    {
        if !crate::path::same_component(&pc[i], &bc[i]) {
            proof {
                assert(pv.take(bv.len() as int)[i as int] == pv[i as int]);
                assert(bv[i as int] == bc@[i as int].view_pair());
                assert(pv[i as int] == pc@[i as int].view_pair());
                assert(pv.take(bv.len() as int)[i as int] != bv[i as int]);
                assert(!(pv.take(bv.len() as int) =~= bv));
                assert(pv.skip(0) =~= pv);
            }
            return join_components(&pc, 0);
        }
        proof {
            assert(pv.take(i as int + 1) =~= pv.take(i as int).push(pv[i as int]));
            assert(bv.take(i as int + 1) =~= bv.take(i as int).push(bv[i as int]));
        }
        i += 1;
    }
    assert(bv.take(bv.len() as int) =~= bv);
    join_components(&pc, bc.len())
}

/// Include and exclude globs, each a valid pattern.
pub struct Filters {
    include_globs: Vec<String>,
    exclude_globs: Vec<String>,
}

/// Whether any of the patterns matches the path.
pub open spec fn any_matches(patterns: Seq<String>, path: Seq<char>) -> bool {
    exists|i: int| 0 <= i < patterns.len() && glob_match(#[trigger] patterns[i]@, path) == Some(true)
}

/// Whether the filters keep the path with this glob form: no exclude matches,
/// and an include matches when any is set.
pub open spec fn filters_admit(includes: Seq<String>, excludes: Seq<String>, m: Seq<char>) -> bool {
    !any_matches(excludes, m) && (includes.len() == 0 || any_matches(includes, m))
}

/// The first pattern of the list that is not a valid glob, with its message.
pub open spec fn first_problem(patterns: Seq<String>) -> Option<(Seq<char>, Seq<char>)>
    decreases patterns.len(),
{
    if patterns.len() == 0 {
        None
    } else {
        match glob_problem(patterns[0]@) {
            Some(m) => Some((patterns[0]@, m)),
            None => first_problem(patterns.drop_first()),
        }
    }
}

/// The patterns separated by `, `, as a set's error names them.
pub open spec fn joined_patterns(patterns: Seq<String>) -> Seq<char>
    decreases patterns.len(),
{
    if patterns.len() == 0 {
        Seq::empty()
    } else if patterns.len() == 1 {
        patterns[0]@
    } else {
        joined_patterns(patterns.drop_last()) + ", "@ + patterns.last()@
    }
}

/// The problem with a list of globs: its first invalid pattern, or else, for a
/// list that is not empty, the failure to build their set, named by all the
/// patterns joined.
pub open spec fn globs_problem(patterns: Seq<String>) -> Option<(Seq<char>, Seq<char>)> {
    match first_problem(patterns) {
        Some(x) => Some(x),
        None => if patterns.len() == 0 {
            None
        } else {
            match glob_set_problem(patterns.map_values(|p: String| p@)) {
                Some(m) => Some((joined_patterns(patterns), m)),
                None => None,
            }
        },
    }
}

fn join_patterns(patterns: &Vec<String>) -> (r: String)
    ensures
        r@ == joined_patterns(patterns@),
{
    let mut out = String::new();
    let mut i: usize = 0;
    proof {
        reveal_strlit(", ");
    }
    assert(patterns@.take(0) =~= Seq::<String>::empty());
    while i < patterns.len()
        invariant
            i <= patterns.len(),
            out@ == joined_patterns(patterns@.take(i as int)),
            ", "@ == seq![',', ' '],
        decreases patterns.len() - i,
    {
        let ghost before = out@;
        if i > 0 {
            out = concat(out.as_str(), ", ");
        }
        out = concat(out.as_str(), patterns[i].as_str());
        proof {
            let t = patterns@.take(i as int + 1);
            assert(t.drop_last() =~= patterns@.take(i as int));
            assert(t.last() == patterns@[i as int]);
            if i == 0 {
                assert(before =~= Seq::<char>::empty());
                assert(out@ =~= patterns@[0]@);
                assert(t[0] == patterns@[0]);
            }
        }
        i += 1;
    }
    assert(patterns@.take(patterns.len() as int) =~= patterns@);
    out
}

/// The problem with a list of globs, as `globs_problem` states it.
fn check_globs(patterns: &Vec<String>) -> (r: Option<(String, String)>)
    ensures
        match globs_problem(patterns@) {
            None => r is None,
            Some((p, m)) => (r matches Some((a, b)) && a@ == p && b@ == m),
        },
{
    match check_patterns(patterns) {
        Some(problem) => Some(problem),
        None => {
            if patterns.len() == 0 {
                None
            } else {
                match glob_set_error(patterns) {
                    Some(message) => Some((join_patterns(patterns), message)),
                    None => None,
                }
            }
        },
    }
}

fn check_patterns(patterns: &Vec<String>) -> (r: Option<(String, String)>)
    ensures
        match first_problem(patterns@) {
            None => r is None,
            Some((p, m)) => (r matches Some((a, b)) && a@ == p && b@ == m),
        },
{
    let mut i: usize = 0;
    assert(patterns@.skip(0) =~= patterns@);
    while i < patterns.len()
        invariant
            i <= patterns.len(),
            first_problem(patterns@) == first_problem(patterns@.skip(i as int)),
        decreases patterns.len() - i,
    {
        assert(patterns@.skip(i as int)[0] == patterns@[i as int]);
        match glob_error(patterns[i].as_str()) {
            Some(m) => {
                return Some((patterns[i].clone(), m));
            },
            None => {},
        }
        assert(patterns@.skip(i as int).drop_first() =~= patterns@.skip(i as int + 1));
        i += 1;
    }
    None
}

fn matches_any(patterns: &Vec<String>, path: &str) -> (r: bool)
    ensures
        r == any_matches(patterns@, path@),
{
    let mut i: usize = 0;
    while i < patterns.len()
        invariant
            i <= patterns.len(),
            forall|k: int| 0 <= k < i ==> glob_match(#[trigger] patterns@[k]@, path@) != Some(true),
        decreases patterns.len() - i,
    {
        match glob_is_match(patterns[i].as_str(), path) {
            Some(true) => {
                return true;
            },
            _ => {},
        }
        i += 1;
    }
    false
}

impl Filters {
    /// The include globs.
    pub closed spec fn spec_includes(&self) -> Seq<String> {
        self.include_globs@
    }

    /// The exclude globs.
    pub closed spec fn spec_excludes(&self) -> Seq<String> {
        self.exclude_globs@
    }

    /// Filters from include and exclude globs; the first problem (includes first,
    /// an invalid pattern before a set that cannot be built) is reported.
    pub fn new(includes: &Vec<String>, excludes: &Vec<String>) -> (r: Result<Filters, ScanError>)
        ensures
            match (globs_problem(includes@), globs_problem(excludes@)) {
                (Some((p, m)), _) => (r matches Err(ScanError::InvalidGlob { pattern, message })
                    && pattern@ == p && message@ == m),
                (None, Some((p, m))) => (r matches Err(ScanError::InvalidGlob { pattern, message })
                    && pattern@ == p && message@ == m),
                (None, None) => (r matches Ok(f) && f.spec_includes() == includes@
                    && f.spec_excludes() == excludes@),
            },
    {
        match check_globs(includes) {
            Some((pattern, message)) => {
                return Err(ScanError::InvalidGlob { pattern, message });
            },
            None => {},
        }
        match check_globs(excludes) {
            Some((pattern, message)) => {
                return Err(ScanError::InvalidGlob { pattern, message });
            },
            None => {},
        }
        Ok(Filters { include_globs: crate::cli::clone_strings(includes), exclude_globs: crate::cli::clone_strings(excludes) })
    }

    /// Whether a discovered path is kept, matched relative to `cwd`.
    pub fn admits(&self, path: &str, cwd: &str) -> (r: bool)
        ensures
            r == filters_admit(self.spec_includes(), self.spec_excludes(), match_path(path@, cwd@)),
    {
        let m = match_path_of(path, cwd);
        if matches_any(&self.exclude_globs, m.as_str()) {
            return false;
        }
        self.include_globs.len() == 0 || matches_any(&self.include_globs, m.as_str())
    }

    /// Whether a path inside a tree is kept, matched as it stands.
    pub fn admits_relative(&self, path: &str) -> (r: bool)
        ensures
            r == filters_admit(self.spec_includes(), self.spec_excludes(), forward_slash(path@)),
    {
        let m = forward_slash_path(path);
        if matches_any(&self.exclude_globs, m.as_str()) {
            return false;
        }
        self.include_globs.len() == 0 || matches_any(&self.include_globs, m.as_str())
    }
}

/// Whether a path starts with `/`.
pub open spec fn is_absolute(p: Seq<char>) -> bool {
    p.len() > 0 && p[0] == '/'
}

/// The identity under which a displayed path is deduplicated: the cleaned
/// absolute path.
pub open spec fn path_identity(display: Seq<char>, cwd: Seq<char>) -> Seq<char> {
    if is_absolute(display) {
        display
    } else {
        cleaned_path(join_path(cwd, display))
    }
}

/// A discovered path: its identity and the form in which it is reported.
pub struct IndexedPath {
    /// The cleaned absolute path.
    pub identity: String,
    /// The cleaned path as discovered.
    pub display: String,
}

impl SortKey for IndexedPath {
    open spec fn spec_after(&self, other: &Self) -> bool {
        path_order(self.identity@, other.identity@) > 0
    }

    fn after(&self, other: &Self) -> (r: bool) {
        crate::path::compare_paths(self.identity.as_str(), other.identity.as_str()) > 0
    }
}

/// Whether a path with this identity is among the entries.
pub open spec fn has_identity(entries: Seq<IndexedPath>, identity: Seq<char>) -> bool {
    exists|i: int| 0 <= i < entries.len() && path_order(#[trigger] entries[i].identity@, identity) == 0
}

/// The entries after offering one discovered path: the first discovery of an
/// identity is kept; paths the filters reject are dropped.
pub open spec fn offered(entries: Seq<IndexedPath>, path: Seq<char>, cwd: Seq<char>, includes: Seq<String>, excludes: Seq<String>) -> Option<(Seq<char>, Seq<char>)> {
    let display = cleaned_path(path);
    let identity = path_identity(display, cwd);
    if !filters_admit(includes, excludes, match_path(display, cwd)) || has_identity(entries, identity) {
        None
    } else {
        Some((identity, display))
    }
}

/// Whether no two entries share an identity.
pub open spec fn distinct_identities(entries: Seq<IndexedPath>) -> bool {
    forall|i: int, j: int| 0 <= i < j < entries.len() ==> path_order(#[trigger] entries[i].identity@, #[trigger] entries[j].identity@) != 0
}

/// Discovered paths, each identity once, in order of discovery.
pub struct PathIndex {
    entries: Vec<IndexedPath>,
}

impl PathIndex {
    #[verifier::type_invariant]
    spec fn identities_distinct(&self) -> bool {
        distinct_identities(self.entries@)
    }

    /// The entries in order of discovery.
    pub closed spec fn spec_entries(&self) -> Seq<IndexedPath> {
        self.entries@
    }

    /// No path yet.
    pub fn new() -> (r: PathIndex)
        ensures
            r.spec_entries().len() == 0,
            distinct_identities(r.spec_entries()),
    {
        PathIndex { entries: Vec::new() }
    }

    /// Offer one discovered path: it is cleaned, filtered relative to `cwd`, and
    /// kept unless a path with the same identity was kept before.
    pub fn insert(&mut self, path: &str, cwd: &str, filters: &Filters)
        ensures
            match offered(old(self).spec_entries(), path@, cwd@, filters.spec_includes(), filters.spec_excludes()) {
                None => final(self).spec_entries() == old(self).spec_entries(),
                Some((identity, display)) => final(self).spec_entries().len() == old(self).spec_entries().len() + 1
                    && final(self).spec_entries().drop_last() == old(self).spec_entries()
                    && final(self).spec_entries().last().identity@ == identity
                    && final(self).spec_entries().last().display@ == display,
            },
            distinct_identities(final(self).spec_entries()),
    {
        proof {
            use_type_invariant(&*self);
        }
        let display = clean_path(path);
        if !filters.admits(display.as_str(), cwd) {
            return;
        }
        let dchars = chars_of(display.as_str());
        let identity = if dchars.len() > 0 && dchars[0] == '/' {
            display.clone()
        } else {
            let joined = join(cwd, display.as_str());
            clean_path(joined.as_str())
        };
        let mut i: usize = 0;
        while i < self.entries.len()
            invariant
                i <= self.entries.len(),
                self.entries@ == old(self).entries@,
                distinct_identities(self.entries@),
                forall|k: int| 0 <= k < i ==> path_order(#[trigger] self.entries@[k].identity@, identity@) != 0,
                display@ == cleaned_path(path@),
                identity@ == path_identity(display@, cwd@),
                filters_admit(filters.spec_includes(), filters.spec_excludes(), match_path(display@, cwd@)),
            decreases self.entries.len() - i,
        {
            if crate::path::compare_paths(self.entries[i].identity.as_str(), identity.as_str()) == 0 {
                assert(path_order(self.entries@[i as int].identity@, identity@) == 0);
                assert(has_identity(old(self).entries@, identity@));
                return;
            }
            i += 1;
        }
        let ghost before = self.entries@;
        let entry = IndexedPath { identity, display };
        proof {
            assert(distinct_identities(before.push(entry))) by {
                assert forall|a: int, b: int| 0 <= a < b < before.push(entry).len() implies path_order(
                    #[trigger] before.push(entry)[a].identity@,
                    #[trigger] before.push(entry)[b].identity@,
                ) != 0 by {
                    if b == before.len() {
                        assert(before.push(entry)[a] == before[a]);
                    } else {
                        assert(before.push(entry)[a] == before[a]);
                        assert(before.push(entry)[b] == before[b]);
                    }
                }
            }
        }
        let mut entries: Vec<IndexedPath> = Vec::new();
        std::mem::swap(&mut entries, &mut self.entries);
        entries.push(entry);
        assert(entries@ =~= before.push(entry));
        self.entries = entries;
        assert(self.entries@.drop_last() =~= old(self).entries@);
    }

    /// The kept paths as discovered, ordered by identity.
    pub fn into_paths(self) -> (r: Vec<String>)
        ensures
            distinct_identities(self.spec_entries()),
            r@.len() == self.spec_entries().len(),
            forall|i: int| 0 <= i < r@.len() ==> (#[trigger] r@[i])@ == stable_sorted(self.spec_entries())[i].display@,
    {
        proof {
            use_type_invariant(&self);
        }
        let ghost e = self.entries@;
        let sorted = stable_sort(self.entries);
        proof {
            crate::sort::lemma_stable_sorted_members(e);
        }
        let mut out: Vec<String> = Vec::new();
        let mut i: usize = 0;
        while i < sorted.len()
            invariant
                sorted@ == stable_sorted(e),
                i <= sorted.len(),
                out@.len() == i,
                forall|k: int| 0 <= k < i ==> (#[trigger] out@[k])@ == sorted@[k].display@,
            decreases sorted.len() - i,
        {
            out.push(sorted[i].display.clone());
            i += 1;
        }
        out
    }
}

/// The skip recorded for an entry the directory walk could not read: the path
/// the walk error names (cleaned), else the walked root.
pub fn unreadable_walk_entry(error_path: Option<&str>, root: &str) -> (r: SkipDetail)
    ensures
        r.path@ == cleaned_path(match error_path {
            Some(p) => p@,
            None => root@,
        }),
        r.reason == SkipReason::Unreadable,
        r.detail is None,
{
    let path = match error_path {
        Some(p) => clean_path(p),
        None => clean_path(root),
    };
    SkipDetail { path, reason: SkipReason::Unreadable, detail: None }
}

/// The form in which an input path is discovered: lexically cleaned.
pub fn clean_input(path: &str) -> (r: String)
    ensures
        r@ == cleaned_path(path@),
{
    clean_path(path)
}

/// Discovery needs at least one input.
pub fn require_inputs(inputs: &Vec<String>) -> (r: Result<(), ScanError>)
    ensures
        inputs@.len() == 0 ==> r matches Err(ScanError::NoInputs),
        inputs@.len() > 0 ==> r is Ok,
{
    if inputs.len() == 0 {
        Err(ScanError::NoInputs)
    } else {
        Ok(())
    }
}

} // verus!
