use tokm::aggregate::{LanguageResult, ScanFileResult, ScanResult, ScanTotals, SkippedSummary, aggregate};
use tokm::cache::{Cache, CachePolicy, CachedCount, CountEntry, MetadataEntry, MetadataSnapshot, content_hash, count_key, join, path_fingerprint, should_store_metadata};
use tokm::classify::Language;
use tokm::cli::{CliArgs, DiffExecution, Execution, OutputFormat, SortField, stdin_result, stdin_skip_summary};
use tokm::count::CountOptions;
use tokm::diff::compare_snapshots;
use tokm::error::{GitError, ScanError, TokenizerError};
use tokm::file::{ByteOutcome, ByteSkip, FileOutcome, InvalidUtf8Policy, ScanOptions, SkipDetail, SkipReason, count_bytes, count_file_contents};
use tokm::git::{EntryStep, TreeEntryKind, TreeScan, blob_outcome, blob_size_step, entry_step, is_hidden, relative_path, tree_filters, worktree_scan_options};
use tokm::report::{Report, budget_failure, file_table, language_table, report, skip_summary, verbose_skips};
use tokm::tokenizer::HuggingFaceTokenCounter;
use tokm::walk::{Filters, PathIndex, clean_input, forward_slash_path, match_path_of, unreadable_walk_entry};

fn options() -> ScanOptions {
    ScanOptions::default().with_cache_enabled(false)
}

fn strings(items: &[&str]) -> Vec<String> {
    items.iter().map(|item| (*item).to_owned()).collect()
}

fn scan(files: &[(&str, Language, u64)]) -> ScanResult {
    let count = CountOptions::default();
    let mut languages: Vec<LanguageResult> = Vec::new();
    for (_, language, tokens) in files {
        match languages.iter_mut().find(|l| l.name == *language) {
            Some(l) => {
                l.files += 1;
                l.tokens += tokens;
            }
            None => languages.push(LanguageResult {
                name: *language,
                files: 1,
                tokens: *tokens,
                bytes: 0,
            }),
        }
    }
    ScanResult {
        tokenizer: count.tokenizer().metadata_ref().clone(),
        text_policy: count.text_policy().metadata(),
        invalid_utf8: InvalidUtf8Policy::Skip,
        totals: ScanTotals {
            files: files.len() as u64,
            tokens: files.iter().map(|(_, _, t)| t).sum(),
            bytes: 0,
        },
        languages,
        files: files
            .iter()
            .map(|(path, language, tokens)| ScanFileResult {
                path: (*path).to_owned(),
                language: *language,
                tokens: *tokens,
                bytes: 0,
                decoded_lossily: false,
            })
            .collect(),
        skipped: SkippedSummary::default(),
    }
}

#[test]
fn content_hash_is_blake3_hex() {
    assert_eq!(
        content_hash(b"abc"),
        "6437b3ac38465133ffb63b75273a8db548c558465d79db03fd359c6cd5bd9d85"
    );
    assert_eq!(content_hash(b"abc").len(), 64);
}

#[test]
fn count_key_is_stable_and_hex() {
    let options = CountOptions::default();
    let a = count_key("content", &options, InvalidUtf8Policy::Skip);
    let b = count_key("content", &options, InvalidUtf8Policy::Skip);
    assert_eq!(a, b);
    assert_eq!(a.len(), 64);
    assert!(a.chars().all(|c| c.is_ascii_hexdigit() && !c.is_ascii_uppercase()));
}

#[test]
fn stored_count_round_trips() {
    let key = count_key("hash", &CountOptions::default(), InvalidUtf8Policy::Lossy);
    let count = CachedCount {
        tokens: 42,
        decoded_lossily: true,
    };
    let entry = CountEntry::new(key.clone(), count);
    assert_eq!(entry.count_for(&key), Some(count));
    assert_eq!(entry.count_for("another-key"), None);
}

#[test]
fn metadata_index_decisions() {
    let snapshot = MetadataSnapshot {
        size: 9,
        modified_nanos: Some(5),
    };
    let entry = MetadataEntry::for_snapshot("fp".to_owned(), snapshot, 5 + 3_000_000_000, "hash".to_owned()).unwrap();
    assert_eq!(entry.content_hash_for("fp", snapshot), Some("hash".to_owned()));
    assert_eq!(entry.content_hash_for("other", snapshot), None);
    let unknown_time = MetadataSnapshot {
        size: 9,
        modified_nanos: None,
    };
    assert_eq!(entry.content_hash_for("fp", unknown_time), None);
    assert!(MetadataEntry::for_snapshot("fp".to_owned(), unknown_time, 1, "h".to_owned()).is_none());
    assert!(!should_store_metadata(Some(&entry), 10));
    assert!(should_store_metadata(Some(&entry), 5 + 3_000_000_001));
    assert!(should_store_metadata(None, 10));
}

#[test]
fn cache_locations() {
    let cache = Cache::at("/tmp/cache".to_owned());
    let key = count_key("hash", &CountOptions::default(), InvalidUtf8Policy::Skip);
    let path = cache.count_path(&key);
    assert_eq!(path, format!("/tmp/cache/counts/1/{}/{}.json", &key[..2], key));
    let fp = path_fingerprint("/src/lib.rs", None).unwrap();
    assert_eq!(cache.metadata_path(&fp), format!("/tmp/cache/index/1/{}/{}.json", &fp[..2], fp));
    assert!(Cache::resolve(&CachePolicy::Disabled).is_none());
    assert_eq!(
        Cache::resolve(&CachePolicy::Directory("/x".to_owned())).unwrap().root(),
        "/x"
    );
    assert_eq!(
        Cache::resolve_with(&CachePolicy::Default, Some("/home/u/.cache/tokm".to_owned())).unwrap().root(),
        "/home/u/.cache/tokm"
    );
}

#[test]
fn path_fingerprints_clean_and_resolve() {
    assert_eq!(
        path_fingerprint("/a/./b/../c", None),
        path_fingerprint("/a/c", None)
    );
    assert_eq!(path_fingerprint("c", Some("/a")), path_fingerprint("/a/c", None));
    assert_eq!(path_fingerprint("c", None), None);
    assert_eq!(join("/a", "b"), "/a/b");
    assert_eq!(join("/a/", "b"), "/a/b");
    assert_eq!(join("", "b"), "b");
    assert_eq!(join("/a", "/b"), "/b");
}

#[test]
fn language_deltas_add_up_and_self_comparison_is_empty() {
    let base = scan(&[("a.rs", Language::Rust, 10), ("b.md", Language::Markdown, 4), ("c.py", Language::Python, 9)]);
    let head = scan(&[("a.rs", Language::Markdown, 12), ("b.md", Language::Markdown, 1), ("d.go", Language::Go, 5)]);
    let result = compare_snapshots(&base, &head).unwrap();
    let added: u64 = result.languages.iter().map(|l| l.tokens.added).sum();
    let removed: u64 = result.languages.iter().map(|l| l.tokens.removed).sum();
    let net: i128 = result.languages.iter().map(|l| l.tokens.net).sum();
    assert_eq!((added, removed, net), (result.tokens.added, result.tokens.removed, result.tokens.net));
    assert_eq!(result.tokens.net, i128::from(result.tokens.added) - i128::from(result.tokens.removed));

    let same = compare_snapshots(&base, &base).unwrap();
    assert!(same.files.is_empty());
    assert!(same.languages.is_empty());
    assert_eq!((same.tokens.added, same.tokens.removed, same.tokens.net), (0, 0, 0));
}

#[test]
fn incompatible_policies_are_named() {
    let base = scan(&[]);
    let mut head = scan(&[]);
    head.invalid_utf8 = InvalidUtf8Policy::Lossy;
    let error = compare_snapshots(&base, &head).unwrap_err();
    assert_eq!(error.message(), "cannot compare snapshots with different invalid UTF-8 policies");
}

#[test]
fn language_table_lines() {
    let result = scan(&[("a.rs", Language::Rust, 1), ("b.md", Language::Markdown, 2)]);
    let lines = language_table(&result);
    assert_eq!(
        lines,
        [
            " Language  Files  Tokens  Percent",
            "--------------------------------",
            " Rust          1       1    33.3%",
            " Markdown      1       2    66.7%",
            "--------------------------------",
            " Total         2       3   100.0%",
        ]
    );
}

#[test]
fn file_table_lines_follow_the_sort_order() {
    let result = scan(&[("z.rs", Language::Rust, 1), ("a.md", Language::Markdown, 2), ("m.rs", Language::Rust, 2)]);
    let by_tokens = file_table(&result, SortField::Tokens);
    assert_eq!(
        by_tokens,
        [
            " Tokens  Language  File",
            "--------------------------",
            "      2  Markdown  a.md",
            "      2  Rust      m.rs",
            "      1  Rust      z.rs",
            "--------------------------",
            "      5            Total (3 files)",
        ]
    );
    let by_language = file_table(&result, SortField::Language);
    assert_eq!(by_language[2], "      2  Markdown  a.md");
    assert_eq!(by_language[3], "      2  Rust      m.rs");
    assert_eq!(by_language[4], "      1  Rust      z.rs");
    let by_path = file_table(&result, SortField::Path);
    assert_eq!(by_path[2], "      2  Markdown  a.md");
    assert_eq!(by_path[4], "      1  Rust      z.rs");
}

#[test]
fn skip_summary_and_details() {
    let outcome = count_bytes(&[0, 1, 2], &options()).unwrap();
    let skip = match outcome {
        ByteOutcome::Skipped(skip) => skip,
        ByteOutcome::Measured(_) => panic!("binary input was measured"),
    };
    assert_eq!(skip.reason, SkipReason::Binary);
    let summary = stdin_skip_summary(ByteSkip {
        reason: skip.reason,
        detail: skip.detail.clone(),
    });
    assert_eq!(
        skip_summary(&summary),
        ["", "Skipped: 1 file", "  binary:                      1"]
    );
    let result = stdin_result(ByteOutcome::Skipped(skip), &options());
    assert_eq!(result.totals.files, 0);
    let lines = verbose_skips(&Execution::Scan(result));
    assert_eq!(lines, ["skipped (binary): -"]);
}

#[test]
fn stdin_measurement_is_one_unknown_file() {
    let outcome = count_bytes(b"hello world", &options()).unwrap();
    let result = stdin_result(outcome, &options());
    assert_eq!(result.totals.tokens, 2);
    assert_eq!(result.files.len(), 1);
    assert_eq!(result.files[0].path, "-");
    assert_eq!(result.languages[0].name, Language::Unknown);
}

#[test]
fn budget_message() {
    assert_eq!(
        budget_failure(1_500, 1_000),
        [
            "Token budget exceeded",
            "  Total:       1,500 tokens",
            "  Budget:      1,000 tokens",
            "  Exceeded by: 500 tokens",
        ]
    );
}

#[test]
fn report_dispatch() {
    let result = scan(&[("a.rs", Language::Rust, 1)]);
    let mut args = CliArgs::default();
    args.format = OutputFormat::Json;
    assert_eq!(report(&Execution::Scan(result), &args), Report::Json);
    args.format = OutputFormat::Table;
    args.quiet = true;
    let result = scan(&[("a.rs", Language::Rust, 1)]);
    assert_eq!(report(&Execution::Scan(result), &args), Report::Lines(Vec::new()));
}

#[test]
fn diff_table_lines() {
    let base = scan(&[("a.rs", Language::Rust, 10)]);
    let head = scan(&[("a.rs", Language::Rust, 1_250)]);
    let result = compare_snapshots(&base, &head).unwrap();
    let execution = Execution::Diff(DiffExecution {
        base: "main".to_owned(),
        head: "worktree".to_owned(),
        result,
    });
    let mut args = CliArgs::default();
    args.files = true;
    match report(&execution, &args) {
        Report::Lines(lines) => assert_eq!(
            lines,
            [
                " Token delta (main -> worktree)",
                "------------------------------------------",
                " Added tokens          +1,240",
                " Removed tokens        -0",
                " Net                    +1,240",
                "",
                "          Net  Language          File",
                "------------------------------------------------------------------",
                "       +1,240  Rust              a.rs",
            ]
        ),
        Report::Json => panic!("a table was asked for"),
    }
}

#[test]
fn glob_filters_and_match_paths() {
    let filters = Filters::new(&strings(&["*.rs"]), &strings(&["target/**"])).unwrap();
    assert!(filters.admits("/repo/src/lib.rs", "/repo"));
    assert!(!filters.admits("/repo/target/x.rs", "/repo"));
    assert!(!filters.admits("/repo/README.md", "/repo"));
    assert!(filters.admits_relative("src/lib.rs"));
    assert!(!filters.admits_relative("target/debug/a.rs"));
    assert_eq!(match_path_of("/repo/src/lib.rs", "/repo"), "src/lib.rs");
    assert_eq!(match_path_of("/other/lib.rs", "/repo"), "//other/lib.rs");
    assert_eq!(forward_slash_path("a//b/./c"), "a/b/c");
    assert_eq!(forward_slash_path("/a/b"), "//a/b");
    match Filters::new(&strings(&["a[b"]), &strings(&[])) {
        Err(ScanError::InvalidGlob { pattern, .. }) => assert_eq!(pattern, "a[b"),
        _ => panic!("an unclosed class was accepted"),
    }
}

#[test]
fn overlapping_paths_are_indexed_once() {
    let filters = Filters::new(&strings(&[]), &strings(&[])).unwrap();
    let mut index = PathIndex::new();
    index.insert("src/./lib.rs", "/repo", &filters);
    index.insert("/repo/src/lib.rs", "/repo", &filters);
    index.insert("/repo/a.md", "/repo", &filters);
    assert_eq!(index.into_paths(), strings(&["/repo/a.md", "src/lib.rs"]));
    let skip = unreadable_walk_entry(Some("a/./b/../c"), "root");
    assert_eq!(skip.path, "a/c");
    assert_eq!(skip.reason, SkipReason::Unreadable);
}

#[test]
fn tree_entries_become_steps() {
    let filters = Filters::new(&strings(&[]), &strings(&["*.md"])).unwrap();
    let opts = options();
    assert_eq!(entry_step("", "src", TreeEntryKind::Tree, &opts, &filters), EntryStep::Descend("src".to_owned()));
    assert_eq!(entry_step("src", "lib.rs", TreeEntryKind::Blob, &opts, &filters), EntryStep::Blob("src/lib.rs".to_owned()));
    assert_eq!(entry_step("", "notes.md", TreeEntryKind::Blob, &opts, &filters), EntryStep::Ignore);
    assert_eq!(entry_step("", ".hidden.rs", TreeEntryKind::Blob, &opts, &filters), EntryStep::Ignore);
    assert_eq!(
        entry_step("", ".hidden.rs", TreeEntryKind::Blob, &options().with_hidden(true), &filters),
        EntryStep::Blob(".hidden.rs".to_owned())
    );
    assert_eq!(
        entry_step("", "link.rs", TreeEntryKind::Link, &opts, &filters),
        EntryStep::Skip(SkipDetail { path: "link.rs".to_owned(), reason: SkipReason::Symlink, detail: None })
    );
    assert_eq!(
        entry_step("", "vendored", TreeEntryKind::Commit, &opts, &filters),
        EntryStep::Skip(SkipDetail {
            path: "vendored".to_owned(),
            reason: SkipReason::UnsupportedFilesystemType,
            detail: Some("Git submodule".to_owned())
        })
    );
    assert!(is_hidden("a/.git/config"));
    assert!(!is_hidden("a/b"));
}

#[test]
fn committed_blobs_aggregate_like_files() {
    let opts = options().with_max_file_size(tokm::file::MaxFileSize::Limited(100));
    assert!(blob_size_step("big.txt", 101, &opts).is_some());
    assert!(blob_size_step("ok.txt", 100, &opts).is_none());
    let mut tree = TreeScan::new();
    match blob_outcome("src/lib.rs", b"pub fn answer() -> u8 { 42 }".to_vec(), &opts).unwrap() {
        FileOutcome::Measured(m) => {
            assert_eq!(m.language, Language::Rust);
            tree.record(FileOutcome::Measured(m));
        }
        FileOutcome::Skipped(_) => panic!("text blob was skipped"),
    }
    tree.record(blob_outcome("binary.dat", vec![0, 1, 2], &opts).unwrap());
    let result = tree.finish(&opts).unwrap();
    assert_eq!(result.totals.files, 1);
    assert_eq!(result.skipped.binary, 1);
    assert_eq!(result.files[0].path, "src/lib.rs");
}

#[test]
fn worktree_paths_and_options() {
    assert_eq!(relative_path("/repo/src/lib.rs", "/repo"), "src/lib.rs");
    assert_eq!(relative_path("/elsewhere/x", "/repo"), "/elsewhere/x");
    let opts = worktree_scan_options(options(), "/repo");
    assert_eq!(
        opts.excludes(),
        &strings(&[".git", ".git/**", "//repo/.git", "//repo/.git/**"])
    );
}

#[test]
fn artifact_parse_errors_keep_the_path() {
    match HuggingFaceTokenCounter::from_artifact("invalid.json", b"not JSON") {
        Err(TokenizerError::ArtifactInvalid { path, .. }) => assert_eq!(path, "invalid.json"),
        _ => panic!("invalid artifact was accepted"),
    }
}

#[test]
fn language_rows_add_up_to_the_totals() {
    let opts = options();
    let inputs: [(&str, &[u8]); 4] = [
        ("src/main.rs", b"fn main() { println!(\"hi\"); }"),
        ("src/lib.rs", b"pub fn answer() -> u8 { 42 }"),
        ("README.md", b"# Title\n\nSome words here."),
        ("notes.txt", b"plain text"),
    ];
    let mut measured = Vec::new();
    for (path, bytes) in inputs {
        match count_file_contents(path, Some(bytes.to_vec()), &opts, None).unwrap().0 {
            FileOutcome::Measured(f) => measured.push(f),
            FileOutcome::Skipped(s) => panic!("unexpected skip: {:?}", s),
        }
    }
    let result = aggregate(measured, Vec::new(), &opts).unwrap();
    assert_eq!(result.totals.files, 4);
    assert_eq!(result.languages.len(), 3);
    let files: u64 = result.languages.iter().map(|l| l.files).sum();
    let tokens: u64 = result.languages.iter().map(|l| l.tokens).sum();
    let bytes: u64 = result.languages.iter().map(|l| l.bytes).sum();
    assert_eq!(files, result.totals.files);
    assert_eq!(tokens, result.totals.tokens);
    assert_eq!(bytes, result.totals.bytes);
    let expected_bytes: u64 = inputs.iter().map(|(_, b)| b.len() as u64).sum();
    assert_eq!(result.totals.bytes, expected_bytes);
}

#[test]
fn net_change_is_head_total_minus_base_total() {
    let base = scan(&[("a.rs", Language::Rust, 10), ("b.md", Language::Markdown, 4), ("c.py", Language::Python, 9)]);
    let head = scan(&[("a.rs", Language::Markdown, 12), ("b.md", Language::Markdown, 4), ("d.go", Language::Go, 5)]);
    let result = compare_snapshots(&base, &head).unwrap();
    let base_total: i128 = base.files.iter().map(|f| i128::from(f.tokens)).sum();
    let head_total: i128 = head.files.iter().map(|f| i128::from(f.tokens)).sum();
    assert_eq!(result.tokens.net, head_total - base_total);
    assert_eq!(result.tokens.net, -2);
}

#[test]
fn tree_scan_finishes_and_reports_invalid_globs() {
    let opts = options();
    let mut tree = TreeScan::new();
    tree.record(blob_outcome("src/lib.rs", b"pub fn answer() -> u8 { 42 }".to_vec(), &opts).unwrap());
    let result = tree.finish(&opts).unwrap();
    assert_eq!(result.totals.files, 1);
    let bad = options().with_include("[");
    assert!(matches!(tree_filters(&bad), Err(GitError::Scan(ScanError::InvalidGlob { .. }))));
}

#[test]
fn warm_and_cold_counts_agree() {
    let opts = options();
    let bytes = b"fn main() { let answer = 42; }\n".to_vec();
    let (cold, published) = count_file_contents("src/main.rs", Some(bytes.clone()), &opts, None).unwrap();
    let published = published.expect("a measured file publishes its count");
    let (warm, again) = count_file_contents("src/main.rs", Some(bytes), &opts, Some(published)).unwrap();
    assert_eq!(warm, cold);
    assert_eq!(again, Some(published));
}

#[test]
fn input_paths_are_cleaned() {
    assert_eq!(clean_input("./src//lib.rs"), "src/lib.rs");
    assert_eq!(clean_input("a/b/../c"), "a/c");
}

#[test]
fn each_entry_nets_head_minus_base() {
    let base = scan(&[("a.rs", Language::Rust, 10), ("b.md", Language::Markdown, 4), ("c.py", Language::Python, 9)]);
    let head = scan(&[("a.rs", Language::Markdown, 12), ("b.md", Language::Markdown, 1), ("d.go", Language::Go, 5)]);
    let result = compare_snapshots(&base, &head).unwrap();
    assert_eq!(result.files.len(), 4);
    for file in &result.files {
        let expected = i128::from(file.head_tokens.unwrap_or(0)) - i128::from(file.base_tokens.unwrap_or(0));
        assert_eq!(file.tokens.net, expected);
    }
}
