use std::io::{Cursor, Read};

use tokm::aggregate::{ScanFileResult, ScanResult, ScanTotals, SkippedSummary};
use tokm::cache::{CachedCount, CountEntry, MetadataEntry, MetadataSnapshot, RACY_MTIME_WINDOW_NANOS, count_key};
use tokm::classify::{Language, classify};
use tokm::count::{CountOptions, count_text};
use tokm::decode::{DecodeOutcome, decode};
use tokm::diff::{TokenDelta, compare_snapshots};
use tokm::file::{ByteOutcome, InvalidUtf8Policy, MaxFileSize, ScanOptions, SkipReason, count_bytes, read_allowance};
use tokm::text_policy::TextPolicy;
use tokm::tokenizer::{BuiltinEncoding, BuiltinTokenCounter, HuggingFaceTokenCounter, TokenCounter, TokenizerKind};
use tokm::error::TokenizerError;

#[test]
fn version_is_set() {
    assert_eq!(tokm::VERSION, "0.0.1");
}

#[test]
fn classifies_common_source_and_data_extensions() {
    let cases = [
        ("lib.rs", Language::Rust),
        ("types.PYI", Language::Python),
        ("view.tsx", Language::TypeScript),
        ("package.json", Language::Json),
        ("notes", Language::Unknown),
    ];

    for (path, expected) in cases {
        assert_eq!(classify(path), expected, "{path}");
    }
}

#[test]
fn default_count_uses_o200k_base_literal_semantics() {
    let result = count_text("hello world", &CountOptions::default()).unwrap();

    assert_eq!(result.tokens, 2);
    assert_eq!(result.tokenizer.name, "o200k_base");
    assert_eq!(result.text_policy.mode, "literal");
}

#[test]
fn normalization_changes_only_the_measured_view() {
    let literal = CountOptions::for_encoding(BuiltinEncoding::Cl100kBase);
    let normalized = CountOptions::for_encoding(BuiltinEncoding::Cl100kBase)
        .with_text_policy(TextPolicy::Normalized);
    let input = "one\r\n\r\ntwo";

    let literal_result = count_text(input, &literal).unwrap();
    let normalized_result = count_text(input, &normalized).unwrap();
    let expected_result = count_text("one\n\ntwo", &literal).unwrap();

    assert_eq!(literal_result.bytes, normalized_result.bytes);
    assert_eq!(normalized_result.tokens, expected_result.tokens);
}

#[test]
fn model_alias_uses_resolved_encoding_metadata() {
    let model = CountOptions::for_model("gpt-5").unwrap();
    let encoding = CountOptions::for_encoding(BuiltinEncoding::O200kBase);
    let model_result = count_text("hello world", &model).unwrap();
    let encoding_result = count_text("hello world", &encoding).unwrap();

    assert_eq!(model_result, encoding_result);
    assert_eq!(model_result.tokenizer.name, "o200k_base");
}

#[test]
fn utf16_bom_is_more_specific_than_binary() {
    let outcome = decode(&[0xff, 0xfe, b'a', 0], InvalidUtf8Policy::Skip);

    assert!(matches!(
        outcome,
        DecodeOutcome::Skipped {
            reason: SkipReason::UnsupportedEncoding,
            detail: Some("UTF-16LE")
        }
    ));
}

#[test]
fn lossy_decoding_uses_replacement_characters() {
    let outcome = decode(&[b'a', 0xff, b'b'], InvalidUtf8Policy::Lossy);

    match outcome {
        DecodeOutcome::Text {
            text,
            decoded_lossily,
        } => {
            assert_eq!(text, "a\u{fffd}b");
            assert!(decoded_lossily);
        }
        DecodeOutcome::Skipped { .. } => panic!("lossy input was skipped"),
    }
}

fn options() -> ScanOptions {
    ScanOptions::default().with_cache_enabled(false)
}

#[test]
fn byte_inputs_share_file_decode_policy() {
    let skipped = count_bytes(&[b'a', 0xff], &options()).unwrap();
    let lossy = count_bytes(
        &[b'a', 0xff],
        &options().with_invalid_utf8(InvalidUtf8Policy::Lossy),
    )
    .unwrap();

    assert!(matches!(
        skipped,
        ByteOutcome::Skipped(detail) if detail.reason == SkipReason::InvalidUtf8
    ));
    assert!(matches!(
        lossy,
        ByteOutcome::Measured(result) if result.decoded_lossily && result.bytes == 2
    ));
}

#[test]
fn literal_policy_borrows_unchanged_text() {
    let input = "\u{feff}a\r\nb\rc";

    assert_eq!(TextPolicy::Literal.apply(input), input);
}

#[test]
fn normalization_removes_only_a_leading_bom_and_normalizes_line_endings() {
    let input = "\u{feff}a\r\nb\rc\n\u{feff}";

    assert_eq!(TextPolicy::Normalized.apply(input), "a\nb\nc\n\u{feff}");
}

#[test]
fn defaults_to_o200k_base() {
    assert_eq!(BuiltinEncoding::default(), BuiltinEncoding::O200kBase);
}

#[test]
fn ordinary_encoding_treats_special_token_syntax_as_text() {
    let counter = BuiltinTokenCounter::new(BuiltinEncoding::O200kBase);

    assert!(counter.count("<|endoftext|>").unwrap() > 1);
}

#[test]
fn counts_match_reference_tiktoken_ordinary_encoding() {
    let corpus = [
        "",
        "hello world",
        "<|endoftext|>",
        "<|fim_prefix|>",
        "tabs\tand  spaces",
        "line one\r\nline two\rline three\n",
        "你好，世界 👋🏽",
        "fn main() { println!(\"hello\"); }",
        r#"{"compact":[1,2,3],"ok":true}"#,
        "long_identifier_with_HTTP2_and_1234567890",
    ];
    let fixtures = [
        (BuiltinEncoding::O200kBase, [0, 2, 7, 6, 4, 9, 7, 9, 13, 11]),
        (
            BuiltinEncoding::Cl100kBase,
            [0, 2, 7, 7, 4, 9, 11, 9, 13, 11],
        ),
    ];

    for (encoding, expected) in fixtures {
        let counter = BuiltinTokenCounter::new(encoding);
        let actual = corpus.map(|text| counter.count(text).unwrap());

        assert_eq!(actual, expected, "{}", encoding.as_str());
    }
}

#[test]
fn supported_names_round_trip() {
    for encoding in [BuiltinEncoding::O200kBase, BuiltinEncoding::Cl100kBase] {
        assert_eq!(BuiltinEncoding::parse(encoding.as_str()).unwrap(), encoding);
    }
}

#[test]
fn model_aliases_resolve_to_stable_encoding_identities() {
    let fixtures = [
        ("gpt-5", BuiltinEncoding::O200kBase),
        ("gpt-5.2-2025-12-11", BuiltinEncoding::O200kBase),
        ("gpt-4.1", BuiltinEncoding::O200kBase),
        ("gpt-4.1-2025-04-14", BuiltinEncoding::O200kBase),
        ("gpt-4o", BuiltinEncoding::O200kBase),
        ("gpt-4o-2024-08-06", BuiltinEncoding::O200kBase),
        ("gpt-4", BuiltinEncoding::Cl100kBase),
        ("gpt-4-0613", BuiltinEncoding::Cl100kBase),
        ("gpt-3.5-turbo", BuiltinEncoding::Cl100kBase),
        ("gpt-3.5-turbo-0125", BuiltinEncoding::Cl100kBase),
    ];

    for (model, encoding) in fixtures {
        assert_eq!(BuiltinEncoding::for_model(model).unwrap(), encoding, "{model}");
    }

    assert!(BuiltinEncoding::for_model("unknown").is_err());
}

/// A small word-level artifact: whitespace-separated words, every word unknown.
const WORD_LEVEL_ARTIFACT: &str = r#"{
  "version": "1.0",
  "truncation": null,
  "padding": null,
  "added_tokens": [],
  "normalizer": null,
  "pre_tokenizer": {"type": "Whitespace"},
  "post_processor": null,
  "decoder": null,
  "model": {"type": "WordLevel", "vocab": {"[UNK]": 0, "hello": 1, "world": 2}, "unk_token": "[UNK]"}
}"#;

#[test]
fn factory_routes_through_shared_counting_semantics() {
    let options =
        CountOptions::for_tokenizer_file("tokenizer.json", WORD_LEVEL_ARTIFACT.as_bytes()).unwrap();
    let result = count_text("HÉLLO WORLD", &options).unwrap();

    assert_eq!(result.tokens, 2);
    assert_eq!(result.tokenizer.kind, TokenizerKind::LocalFile);
}

#[test]
fn potentially_racy_metadata_is_never_trusted() {
    let snapshot = MetadataSnapshot {
        size: 4,
        modified_nanos: Some(10),
    };
    let entry = MetadataEntry::new(
        "path".to_owned(),
        4,
        10,
        10 + RACY_MTIME_WINDOW_NANOS,
        "content".to_owned(),
    );

    assert!(!entry.is_usable("path", snapshot));

    let safe_entry = MetadataEntry::new(
        "path".to_owned(),
        4,
        10,
        11 + RACY_MTIME_WINDOW_NANOS,
        "content".to_owned(),
    );
    assert!(safe_entry.is_usable("path", snapshot));

    let mut corrupt_entry = safe_entry;
    corrupt_entry.content_hash = "different".to_owned();
    assert!(!corrupt_entry.is_usable("path", snapshot));
}

#[test]
fn count_key_covers_every_counting_semantic() {
    let default = CountOptions::default();
    let normalized = CountOptions::default().with_text_policy(TextPolicy::Normalized);
    let other_encoding = CountOptions::for_encoding(BuiltinEncoding::Cl100kBase);

    let baseline = count_key("content", &default, InvalidUtf8Policy::Skip);

    assert_ne!(
        baseline,
        count_key("other-content", &default, InvalidUtf8Policy::Skip)
    );
    assert_ne!(
        baseline,
        count_key("content", &normalized, InvalidUtf8Policy::Skip)
    );
    assert_ne!(
        baseline,
        count_key("content", &other_encoding, InvalidUtf8Policy::Skip)
    );
    assert_ne!(
        baseline,
        count_key("content", &default, InvalidUtf8Policy::Lossy)
    );
}

#[test]
fn corrupt_count_entry_is_a_cache_miss() {
    let options = CountOptions::default();
    let content_hash = tokm::cache::content_hash(b"content");
    let key = count_key(&content_hash, &options, InvalidUtf8Policy::Skip);
    let mut corrupt = CountEntry::new(
        key.clone(),
        CachedCount {
            tokens: 7,
            decoded_lossily: false,
        },
    );
    corrupt.tokens = 99;

    assert_eq!(corrupt.count_for(&key), None);
    assert!(tokm::cache::should_store_count(Some(&corrupt), &key));

    let fresh = CountEntry::new(
        key.clone(),
        CachedCount {
            tokens: 7,
            decoded_lossily: false,
        },
    );
    assert_eq!(
        fresh.count_for(&key),
        Some(CachedCount {
            tokens: 7,
            decoded_lossily: false
        })
    );
    assert!(!tokm::cache::should_store_count(Some(&fresh), &key));
}

fn snapshot(files: &[(&str, Language, u64)]) -> ScanResult {
    let options = CountOptions::default();
    ScanResult {
        tokenizer: options.tokenizer().metadata_ref().clone(),
        text_policy: options.text_policy().metadata(),
        invalid_utf8: InvalidUtf8Policy::Skip,
        totals: ScanTotals {
            files: u64::try_from(files.len()).unwrap(),
            tokens: files.iter().map(|(_, _, tokens)| tokens).sum(),
            bytes: 0,
        },
        languages: Vec::new(),
        files: files
            .iter()
            .map(|(path, language, tokens)| ScanFileResult {
                path: (*path).to_owned(),
                language: *language,
                tokens: *tokens,
                bytes: 0,
                decoded_lossily: false,
            })
            .collect(),
        skipped: SkippedSummary::default(),
    }
}

#[test]
fn compares_complete_file_footprints_deterministically() {
    let base = snapshot(&[
        ("unchanged.rs", Language::Rust, 10),
        ("changed.rs", Language::Rust, 10),
        ("removed.md", Language::Markdown, 7),
    ]);
    let head = snapshot(&[
        ("unchanged.rs", Language::Rust, 10),
        ("changed.rs", Language::Rust, 14),
        ("added.json", Language::Json, 3),
    ]);

    let result = compare_snapshots(&base, &head).unwrap();

    assert_eq!(
        result.tokens,
        TokenDelta {
            added: 7,
            removed: 7,
            net: 0,
        }
    );
    assert_eq!(
        result
            .files
            .iter()
            .map(|file| file.path.as_str())
            .collect::<Vec<_>>(),
        ["added.json", "changed.rs", "removed.md"]
    );
    assert_eq!(
        result
            .languages
            .iter()
            .map(|language| language.name)
            .collect::<Vec<_>>(),
        [Language::Markdown, Language::Rust, Language::Json]
    );
    assert_eq!(result.base, base.totals);
    assert_eq!(result.head, head.totals);
}

#[test]
fn language_reclassification_is_full_removal_and_addition() {
    let base = snapshot(&[("same.path", Language::Rust, 10)]);
    let head = snapshot(&[("same.path", Language::Markdown, 6)]);

    let result = compare_snapshots(&base, &head).unwrap();

    assert_eq!(result.tokens.added, 6);
    assert_eq!(result.tokens.removed, 10);
    assert_eq!(result.tokens.net, -4);
    assert_eq!(
        result.languages.iter().map(|item| item.tokens).fold(
            TokenDelta::default(),
            |mut total, delta| {
                total.add(delta);
                total
            }
        ),
        result.tokens
    );
}

#[test]
fn rejects_different_counting_semantics() {
    let base = snapshot(&[]);
    let mut head = snapshot(&[]);
    head.tokenizer.fingerprint.push_str(":changed");

    let error = compare_snapshots(&base, &head).unwrap_err();

    assert_eq!(
        error.message(),
        "cannot compare snapshots with different tokenizers"
    );
}

#[test]
fn bounded_stdin_reads_one_byte_past_the_limit_for_skip_detection() {
    let allowance = read_allowance(MaxFileSize::Limited(3)).unwrap();
    let mut bytes = Vec::new();
    Cursor::new(b"abcdef").take(allowance).read_to_end(&mut bytes).unwrap();

    assert_eq!(bytes, b"abcd");
}

#[test]
fn trait_counts_match_the_counters() {
    let counter = BuiltinTokenCounter::new(BuiltinEncoding::O200kBase);
    assert_eq!(counter.count("hello world").unwrap(), 2);
    assert_eq!(counter.count("hello world").unwrap(), counter.count_tokens("hello world").unwrap());
    assert_eq!(TokenCounter::metadata(&counter).name, "o200k_base");
    assert_eq!(TokenCounter::metadata(&counter).kind, TokenizerKind::Builtin);
}

#[test]
fn encoder_outcomes_become_counts_or_backend_errors() {
    assert_eq!(HuggingFaceTokenCounter::count_from_encoding(Ok(7)).unwrap(), 7);
    match HuggingFaceTokenCounter::count_from_encoding(Err("broken".to_owned())) {
        Err(TokenizerError::Backend(message)) => assert_eq!(message, "broken"),
        other => panic!("unexpected: {:?}", other),
    }
}

struct WordCounter {
    metadata: tokm::tokenizer::TokenizerMetadata,
}

impl TokenCounter for WordCounter {
    fn metadata(&self) -> &tokm::tokenizer::TokenizerMetadata {
        &self.metadata
    }

    fn count(&self, text: &str) -> Result<u64, TokenizerError> {
        if text.contains('\u{0}') {
            return Err(TokenizerError::CountOverflow);
        }
        Ok(text.split_whitespace().count() as u64)
    }
}

#[test]
fn callers_can_supply_their_own_counter() {
    let metadata = tokm::tokenizer::TokenizerMetadata {
        kind: TokenizerKind::Proxy,
        name: "words".to_owned(),
        fingerprint: "words:v1".to_owned(),
        accuracy: tokm::tokenizer::AccuracyClass::Proxy,
        raw_text_semantics: tokm::tokenizer::RawTextSemantics::Ordinary,
    };
    let backend = tokm::tokenizer::CountBackend::custom(Box::new(WordCounter { metadata }));
    let options = CountOptions::new(backend);
    let result = count_text("three little words", &options).unwrap();
    assert_eq!(result.tokens, 3);
    assert_eq!(result.bytes, 18);
    assert_eq!(result.tokenizer.name, "words");
    assert_eq!(result.tokenizer.kind, TokenizerKind::Proxy);
    assert!(matches!(count_text("a\u{0}b", &options), Err(tokm::error::CountError::Tokenizer(TokenizerError::CountOverflow))));
}

#[test]
fn artifact_fingerprint_follows_the_bytes_not_the_path() {
    let bytes = WORD_LEVEL_ARTIFACT.as_bytes();
    let a = HuggingFaceTokenCounter::from_artifact("one/tokenizer.json", bytes).unwrap();
    let b = HuggingFaceTokenCounter::from_artifact("two/other.json", bytes).unwrap();
    let mut changed = bytes.to_vec();
    changed.push(b'\n');
    let c = HuggingFaceTokenCounter::from_artifact("one/tokenizer.json", &changed).unwrap();
    assert_eq!(a.metadata_ref().fingerprint, b.metadata_ref().fingerprint);
    assert_eq!(
        a.metadata_ref().fingerprint,
        format!("huggingface:blake3:{}:raw-v1", blake3::hash(bytes).to_hex())
    );
    assert_ne!(a.metadata_ref().fingerprint, c.metadata_ref().fingerprint);
    assert_eq!(b.metadata_ref().name, "other.json");
}

#[test]
fn precompiled_normalizers_are_refused_before_parsing() {
    let artifact = br#"{"version":"1.0","normalizer":{"type":"Precompiled"},"model":{"type":"WordLevel","vocab":{},"unk_token":"[UNK]"}}"#;
    match HuggingFaceTokenCounter::from_artifact("t5/tokenizer.json", artifact) {
        Err(TokenizerError::ArtifactInvalid { path, message }) => {
            assert_eq!(path, "t5/tokenizer.json");
            assert_eq!(message, "artifacts with a Precompiled normalizer are not supported");
        }
        other => panic!("unexpected: {:?}", other.map(|_| ())),
    }
    let escaped = br#"{"normalizer":{"type":"Pr\u0065compiled"}}"#;
    assert!(HuggingFaceTokenCounter::from_artifact("x.json", escaped).is_err());
}
