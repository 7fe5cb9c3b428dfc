//! Decisions of Git-aware measurement: what each entry of a committed tree
//! becomes, how a worktree snapshot is scoped and named, and how two snapshots
//! are compared. Reading the repository itself happens outside the library,
//! which feeds each tree entry and blob through these functions.

use vstd::prelude::*;

use crate::aggregate::{ScanResult, aggregate, aggregates, sum_bytes, sum_tokens};
use crate::cache::{CachedCount, join, join_path};
use crate::diff::{DiffResult, compare_snapshots, compares, compatible, diff_fits, incompatibility};
use crate::error::{CountError, DiffError, GitError, ScanError};
use crate::file::{FileOutcome, FileResult, ScanOptions, SkipDetail, SkipReason, count_file_contents, file_outcome_is, tokens_used};
use crate::path::{components, components_view, path_components};
use crate::walk::{Filters, component_text, globs_problem, filters_admit, forward_slash, forward_slash_path, slash_joined};

verus! {

/// The kind of an entry of a Git tree.
#[derive(Clone, Copy, Debug, PartialEq, Eq, Structural)]
pub enum TreeEntryKind {
    /// A subtree.
    Tree,
    /// A file blob.
    Blob,
    /// A symbolic link.
    Link,
    /// A submodule commit.
    Commit,
}

/// What to do with one tree entry.
#[derive(Debug, PartialEq, Eq)]
pub enum EntryStep {
    /// Leave it out silently.
    Ignore,
    /// Visit the subtree at this path.
    Descend(String),
    /// Read the header of the blob at this path.
    Blob(String),
    /// Record it as skipped.
    Skip(SkipDetail),
}

/// Whether some component of a path starts with `.`.
pub open spec fn is_hidden_path(path: Seq<char>) -> bool {
    exists|i: int| 0 <= i < path_components(path).len() && {
        let t = component_text(#[trigger] path_components(path)[i]);
        t.len() > 0 && t[0] == '.'
    }
}

/// Whether some component of a path starts with `.`.
pub fn is_hidden(path: &str) -> (r: bool)
    ensures
        r == is_hidden_path(path@),
{
    let chars = crate::chars::chars_of(path);
    let cs = components(chars.as_slice());
    let ghost v = components_view(cs@);
    let mut i: usize = 0;
    while i < cs.len()
        invariant
            v == components_view(cs@),
            v == path_components(path@),
            i <= cs.len(),
            forall|k: int| 0 <= k < i ==> {
                let t = component_text(#[trigger] v[k]);
                !(t.len() > 0 && t[0] == '.')
            },
        decreases cs.len() - i,
    {
        let c = &cs[i];
        let starts = match c.kind {
            crate::path::ComponentKind::RootDir => false,
            crate::path::ComponentKind::CurDir => true,
            crate::path::ComponentKind::ParentDir => true,
            crate::path::ComponentKind::Normal => c.name.len() > 0 && c.name[0] == '.',
        };
        assert(v[i as int] == c.view_pair());
        if starts {
            return true;
        }
        i += 1;
    }
    false
}

/// What a tree entry named `name` under `prefix` becomes: hidden paths are left
/// out unless hidden paths are asked for, subtrees are visited, blobs the
/// filters keep are read, and links and submodules the filters keep are
/// recorded as skipped.
pub open spec fn spec_entry_step(
    prefix: Seq<char>,
    name: Seq<char>,
    kind: TreeEntryKind,
    hidden: bool,
    includes: Seq<String>,
    excludes: Seq<String>,
) -> (int, Seq<char>) {
    let path = join_path(prefix, name);
    let admitted = filters_admit(includes, excludes, forward_slash(path));
    if !hidden && is_hidden_path(path) {
        (0, path)
    } else {
        match kind {
            TreeEntryKind::Tree => (1, path),
            TreeEntryKind::Blob => if admitted { (2, path) } else { (0, path) },
            TreeEntryKind::Link => if admitted { (3, path) } else { (0, path) },
            TreeEntryKind::Commit => if admitted { (4, path) } else { (0, path) },
        }
    }
}

/// Whether `step` is the step `spec_entry_step` describes.
pub open spec fn step_is(step: EntryStep, expected: (int, Seq<char>)) -> bool {
    match step {
        EntryStep::Ignore => expected.0 == 0,
        EntryStep::Descend(p) => expected.0 == 1 && p@ == expected.1,
        EntryStep::Blob(p) => expected.0 == 2 && p@ == expected.1,
        EntryStep::Skip(d) => d.path@ == expected.1 && (
            (expected.0 == 3 && d.reason == SkipReason::Symlink && d.detail is None)
            || (expected.0 == 4 && d.reason == SkipReason::UnsupportedFilesystemType
                && (d.detail matches Some(m) && m@ == "Git submodule"@))),
    }
}

/// What one tree entry becomes.
pub fn entry_step(prefix: &str, name: &str, kind: TreeEntryKind, options: &ScanOptions, filters: &Filters) -> (r: EntryStep)
    ensures
        step_is(
            r,
            spec_entry_step(prefix@, name@, kind, options.spec_hidden(), filters.spec_includes(), filters.spec_excludes()),
        ),
{
    let path = join(prefix, name);
    if !options.hidden() && is_hidden(path.as_str()) {
        return EntryStep::Ignore;
    }
    match kind {
        TreeEntryKind::Tree => EntryStep::Descend(path),
        TreeEntryKind::Blob => {
            if filters.admits_relative(path.as_str()) {
                EntryStep::Blob(path)
            } else {
                EntryStep::Ignore
            }
        },
        TreeEntryKind::Link => {
            if filters.admits_relative(path.as_str()) {
                EntryStep::Skip(SkipDetail { path, reason: SkipReason::Symlink, detail: None })
            } else {
                EntryStep::Ignore
            }
        },
        TreeEntryKind::Commit => {
            if filters.admits_relative(path.as_str()) {
                EntryStep::Skip(
                    SkipDetail {
                        path,
                        reason: SkipReason::UnsupportedFilesystemType,
                        detail: Some("Git submodule".to_owned()),
                    },
                )
            } else {
                EntryStep::Ignore
            }
        },
    }
}

/// The skip for a blob whose size the limit does not admit, if it does not.
pub fn blob_size_step(path: &str, size: u64, options: &ScanOptions) -> (r: Option<SkipDetail>)
    ensures
        options.spec_max_file_size().spec_admits(size as int) ==> r is None,
        !options.spec_max_file_size().spec_admits(size as int) ==> (r matches Some(d) && d.path@
            == path@ && d.reason == SkipReason::Oversized && d.detail is None),
{
    if options.max_file_size().admits(size) {
        None
    } else {
        Some(SkipDetail { path: path.to_owned(), reason: SkipReason::Oversized, detail: None })
    }
}

/// The outcome of one blob's contents, measured as a file at `path`.
pub fn blob_outcome(path: &str, contents: Vec<u8>, options: &ScanOptions) -> (r: Result<FileOutcome, GitError>)
    ensures
        match r {
            Ok(outcome) => file_outcome_is(outcome, path@, contents@, *options, crate::file::byte_tokens(contents@, *options)),
            Err(e) => e matches GitError::Count(CountError::Tokenizer(t)) && options.spec_count().spec_tokenizer().spec_reports(t)
                && crate::file::byte_tokens(contents@, *options) is None
                && crate::file::byte_skip(contents@, *options) is None,
        },
{
    match blob_outcome_cached(path, contents, options, None) {
        Ok((outcome, _)) => Ok(outcome),
        Err(e) => Err(e),
    }
}

/// The outcome of one blob's contents, reusing `cached` (the count remembered for
/// the same content and counting semantics) when it was recorded for the same
/// decoding; also the count to remember for this content, when it was measured.
pub fn blob_outcome_cached(
    path: &str,
    contents: Vec<u8>,
    options: &ScanOptions,
    cached: Option<CachedCount>,
) -> (r: Result<(FileOutcome, Option<CachedCount>), GitError>)
    ensures
        match r {
            Ok((outcome, publish)) => {
                &&& file_outcome_is(outcome, path@, contents@, *options, tokens_used(contents@, *options, cached))
                &&& match outcome {
                    FileOutcome::Measured(m) => publish == Some(
                        CachedCount { tokens: m.tokens, decoded_lossily: m.decoded_lossily },
                    ),
                    FileOutcome::Skipped(_) => publish is None,
                }
            },
            Err(e) => e matches GitError::Count(CountError::Tokenizer(t)) && options.spec_count().spec_tokenizer().spec_reports(t)
                && crate::file::byte_tokens(contents@, *options) is None
                && crate::file::byte_skip(contents@, *options) is None,
        },
{
    match count_file_contents(path, Some(contents), options, cached) {
        Ok(result) => Ok(result),
        Err(e) => Err(GitError::Count(e)),
    }
}

/// The measured and skipped entries of one tree scan so far.
pub struct TreeScan {
    measured: Vec<FileResult>,
    skipped: Vec<SkipDetail>,
}

impl TreeScan {
    /// The measured files, in the order recorded.
    pub closed spec fn spec_measured(&self) -> Seq<FileResult> {
        self.measured@
    }

    /// The skipped entries, in the order recorded.
    pub closed spec fn spec_skipped(&self) -> Seq<SkipDetail> {
        self.skipped@
    }

    /// Nothing recorded yet.
    pub fn new() -> (r: TreeScan)
        ensures
            r.spec_measured().len() == 0,
            r.spec_skipped().len() == 0,
    {
        TreeScan { measured: Vec::new(), skipped: Vec::new() }
    }

    /// Record the outcome of one blob.
    pub fn record(&mut self, outcome: FileOutcome)
        ensures
            match outcome {
                FileOutcome::Measured(m) => final(self).spec_measured() == old(self).spec_measured().push(m)
                    && final(self).spec_skipped() == old(self).spec_skipped(),
                FileOutcome::Skipped(s) => final(self).spec_skipped() == old(self).spec_skipped().push(s)
                    && final(self).spec_measured() == old(self).spec_measured(),
            },
    {
        match outcome {
            FileOutcome::Measured(m) => self.measured.push(m),
            FileOutcome::Skipped(s) => self.skipped.push(s),
        }
    }

    /// Record one skipped entry.
    pub fn skip(&mut self, detail: SkipDetail)
        ensures
            final(self).spec_skipped() == old(self).spec_skipped().push(detail),
            final(self).spec_measured() == old(self).spec_measured(),
    {
        self.skipped.push(detail);
    }

    /// The scan result of everything recorded.
    pub fn finish(self, options: &ScanOptions) -> (r: Result<ScanResult, GitError>)
        ensures
            sum_tokens(self.spec_measured()) <= u64::MAX && sum_bytes(self.spec_measured()) <= u64::MAX
                ==> (r matches Ok(s) && aggregates(s, self.spec_measured(), self.spec_skipped(), *options)),
            !(sum_tokens(self.spec_measured()) <= u64::MAX && sum_bytes(self.spec_measured()) <= u64::MAX)
                ==> (r matches Err(GitError::Scan(ScanError::AggregateOverflow))),
    {
        match aggregate(self.measured, self.skipped, options) {
            Ok(s) => Ok(s),
            Err(e) => Err(GitError::Scan(e)),
        }
    }
}

/// The filters of a tree scan.
pub fn tree_filters(options: &ScanOptions) -> (r: Result<Filters, GitError>)
    ensures
        match (globs_problem(options.spec_includes()), globs_problem(options.spec_excludes())) {
            (Some((p, m)), _) => (r matches Err(GitError::Scan(ScanError::InvalidGlob { pattern, message })) && pattern@
                == p && message@ == m),
            (None, Some((p, m))) => (r matches Err(GitError::Scan(ScanError::InvalidGlob { pattern, message })) && pattern@
                == p && message@ == m),
            (None, None) => (r matches Ok(f) && f.spec_includes() == options.spec_includes()
                && f.spec_excludes() == options.spec_excludes()),
        },
{
    match Filters::new(options.includes(), options.excludes()) {
        Ok(f) => Ok(f),
        Err(e) => Err(GitError::Scan(e)),
    }
}

/// The forward-slash form of the worktree's Git directory.
pub open spec fn metadata_path(worktree: Seq<char>) -> Seq<char> {
    forward_slash(join_path(worktree, ".git"@))
}

/// Options for scanning a worktree: the same options, excluding the Git
/// directory both by its relative name and by its full path.
pub fn worktree_scan_options(options: ScanOptions, worktree: &str) -> (r: ScanOptions)
    ensures
        r.spec_count() == options.spec_count(),
        r.spec_invalid_utf8() == options.spec_invalid_utf8(),
        r.spec_max_file_size() == options.spec_max_file_size(),
        r.spec_includes() == options.spec_includes(),
        r.spec_hidden() == options.spec_hidden(),
        r.spec_no_ignore() == options.spec_no_ignore(),
        r.spec_follow_symlinks() == options.spec_follow_symlinks(),
        r.spec_workers() == options.spec_workers(),
        r.spec_cache() == options.spec_cache(),
        r.spec_excludes().len() == options.spec_excludes().len() + 4,
        r.spec_excludes().take(options.spec_excludes().len() as int) == options.spec_excludes(),
        r.spec_excludes()[options.spec_excludes().len() as int]@ == ".git"@,
        r.spec_excludes()[options.spec_excludes().len() as int + 1]@ == ".git/**"@,
        r.spec_excludes()[options.spec_excludes().len() as int + 2]@ == metadata_path(worktree@),
        r.spec_excludes()[options.spec_excludes().len() as int + 3]@ == metadata_path(worktree@) + "/**"@,
{
    let git_dir = join(worktree, ".git");
    let metadata = forward_slash_path(git_dir.as_str());
    let mut all = metadata.clone();
    all.append("/**");
    let ghost e0 = options.spec_excludes();
    let o1 = options.with_exclude(".git");
    let o2 = o1.with_exclude(".git/**");
    let o3 = o2.with_exclude(metadata.as_str());
    let o4 = o3.with_exclude(all.as_str());
    proof {
        assert(o4.spec_excludes().take(e0.len() as int) =~= e0) by {
            assert(o4.spec_excludes().drop_last() == o3.spec_excludes());
            assert(o3.spec_excludes().drop_last() == o2.spec_excludes());
            assert(o2.spec_excludes().drop_last() == o1.spec_excludes());
            assert(o1.spec_excludes().drop_last() == e0);
            assert forall|i: int| 0 <= i < e0.len() implies o4.spec_excludes()[i] == e0[i] by {
                assert(o4.spec_excludes()[i] == o3.spec_excludes()[i]);
                assert(o3.spec_excludes()[i] == o2.spec_excludes()[i]);
                assert(o2.spec_excludes()[i] == o1.spec_excludes()[i]);
            }
        }
        assert(o4.spec_excludes()[e0.len() as int] == o3.spec_excludes()[e0.len() as int]);
        assert(o3.spec_excludes()[e0.len() as int] == o2.spec_excludes()[e0.len() as int]);
        assert(o2.spec_excludes()[e0.len() as int] == o1.spec_excludes()[e0.len() as int]);
        assert(o4.spec_excludes()[e0.len() as int + 1] == o3.spec_excludes()[e0.len() as int + 1]);
        assert(o3.spec_excludes()[e0.len() as int + 1] == o2.spec_excludes()[e0.len() as int + 1]);
        assert(o4.spec_excludes()[e0.len() as int + 2] == o3.spec_excludes()[e0.len() as int + 2]);
    }
    o4
}

/// A path relative to `root` when it lies under it (`Path::strip_prefix`,
/// the remaining components joined by `/`), otherwise unchanged.
pub open spec fn relative_to(path: Seq<char>, root: Seq<char>) -> Seq<char> {
    let pc = path_components(path);
    let bc = path_components(root);
    if bc.len() <= pc.len() && pc.take(bc.len() as int) == bc {
        slash_joined(pc.skip(bc.len() as int))
    } else {
        path
    }
}

/// A path relative to `root` when it lies under it.
pub fn relative_path(path: &str, root: &str) -> (r: String)
    ensures
        r@ == relative_to(path@, root@),
{
    let pc_chars = crate::chars::chars_of(path);
    let bc_chars = crate::chars::chars_of(root);
    let pc = components(pc_chars.as_slice());
    let bc = components(bc_chars.as_slice());
    let ghost pv = components_view(pc@);
    let ghost bv = components_view(bc@);
    if bc.len() > pc.len() {
        return path.to_owned();
    }
    let mut i: usize = 0;
    while i < bc.len()
        invariant
            pv == components_view(pc@),
            bv == components_view(bc@),
            pv == path_components(path@),
            bv == path_components(root@),
            bc.len() <= pc.len(),
            i <= bc.len(),
            pv.take(i as int) == bv.take(i as int),
        decreases bc.len() - i,
    {
        if !crate::path::same_component(&pc[i], &bc[i]) {
            proof {
                assert(pv.take(bv.len() as int)[i as int] == pv[i as int]);
                assert(bv[i as int] == bc@[i as int].view_pair());
                assert(pv[i as int] == pc@[i as int].view_pair());
                assert(pv.take(bv.len() as int)[i as int] != bv[i as int]);
                assert(!(pv.take(bv.len() as int) =~= bv));
            }
            return path.to_owned();
        }
        proof {
            assert(pv.take(i as int + 1) =~= pv.take(i as int).push(pv[i as int]));
            assert(bv.take(i as int + 1) =~= bv.take(i as int).push(bv[i as int]));
        }
        i += 1;
    }
    assert(bv.take(bv.len() as int) =~= bv);
    crate::walk::join_components(&pc, bc.len())
}

/// Report a worktree snapshot's paths relative to the worktree root.
pub fn relativize_snapshot(snapshot: &mut ScanResult, root: &str)
    ensures
        final(snapshot).files@.len() == old(snapshot).files@.len(),
        forall|i: int| 0 <= i < old(snapshot).files@.len() ==> {
            let a = #[trigger] final(snapshot).files@[i];
            let b = old(snapshot).files@[i];
            a.path@ == relative_to(b.path@, root@) && a.language == b.language && a.tokens == b.tokens
                && a.bytes == b.bytes && a.decoded_lossily == b.decoded_lossily
        },
        final(snapshot).skipped.details@.len() == old(snapshot).skipped.details@.len(),
        forall|i: int| 0 <= i < old(snapshot).skipped.details@.len() ==> {
            let a = #[trigger] final(snapshot).skipped.details@[i];
            let b = old(snapshot).skipped.details@[i];
            a.path@ == relative_to(b.path@, root@) && a.reason == b.reason && a.detail == b.detail
        },
        final(snapshot).tokenizer == old(snapshot).tokenizer,
        final(snapshot).text_policy == old(snapshot).text_policy,
        final(snapshot).invalid_utf8 == old(snapshot).invalid_utf8,
        final(snapshot).totals == old(snapshot).totals,
        final(snapshot).languages@ == old(snapshot).languages@,
        final(snapshot).skipped.total == old(snapshot).skipped.total,
        final(snapshot).skipped.binary == old(snapshot).skipped.binary,
        final(snapshot).skipped.oversized == old(snapshot).skipped.oversized,
        final(snapshot).skipped.invalid_utf8 == old(snapshot).skipped.invalid_utf8,
        final(snapshot).skipped.unsupported_encoding == old(snapshot).skipped.unsupported_encoding,
        final(snapshot).skipped.unreadable == old(snapshot).skipped.unreadable,
        final(snapshot).skipped.unsupported_filesystem_type == old(snapshot).skipped.unsupported_filesystem_type,
        final(snapshot).skipped.symlink == old(snapshot).skipped.symlink,
{
    let mut files: Vec<crate::aggregate::ScanFileResult> = Vec::new();
    let mut i: usize = 0;
    while i < snapshot.files.len()
        invariant
            i <= snapshot.files.len(),
            snapshot.files@ == old(snapshot).files@,
            files@.len() == i,
            forall|k: int| 0 <= k < i ==> {
                let a = #[trigger] files@[k];
                let b = old(snapshot).files@[k];
                a.path@ == relative_to(b.path@, root@) && a.language == b.language && a.tokens == b.tokens
                    && a.bytes == b.bytes && a.decoded_lossily == b.decoded_lossily
            },
        decreases snapshot.files.len() - i,
    {
        let f = &snapshot.files[i];
        files.push(
            crate::aggregate::ScanFileResult {
                path: relative_path(f.path.as_str(), root),
                language: f.language,
                tokens: f.tokens,
                bytes: f.bytes,
                decoded_lossily: f.decoded_lossily,
            },
        );
        i += 1;
    }
    let mut details: Vec<SkipDetail> = Vec::new();
    let mut j: usize = 0;
    while j < snapshot.skipped.details.len()
        invariant
            j <= snapshot.skipped.details.len(),
            snapshot.skipped.details@ == old(snapshot).skipped.details@,
            details@.len() == j,
            forall|k: int| 0 <= k < j ==> {
                let a = #[trigger] details@[k];
                let b = old(snapshot).skipped.details@[k];
                a.path@ == relative_to(b.path@, root@) && a.reason == b.reason && a.detail == b.detail
            },
        decreases snapshot.skipped.details.len() - j,
    {
        let d = &snapshot.skipped.details[j];
        details.push(
            SkipDetail {
                path: relative_path(d.path.as_str(), root),
                reason: d.reason,
                detail: crate::file::clone_opt_string(&d.detail),
            },
        );
        j += 1;
    }
    snapshot.files = files;
    snapshot.skipped.details = details;
}

/// Compare two snapshots of a repository, reporting an incompatibility as a Git error.
pub fn compare_git_snapshots(base: &ScanResult, head: &ScanResult) -> (r: Result<DiffResult, GitError>)
    requires
        compatible(*base, *head) ==> diff_fits(*base, *head),
    ensures
        compatible(*base, *head) ==> (r matches Ok(d) && compares(d, *base, *head)),
        !compatible(*base, *head) ==> (r matches Err(GitError::Diff(DiffError::IncompatibleSemantics(what)))
            && what@ == incompatibility(*base, *head)),
{
    match compare_snapshots(base, head) {
        Ok(d) => Ok(d),
        Err(e) => Err(GitError::Diff(e)),
    }
}

} // verus!
