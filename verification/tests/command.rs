use tokm::cli::{CliArgs, CliError, TokenizerFile, Comparison, InputMode, budget_overrun, input_mode, parse_comparison, parse_encoding, parse_file_size};
use tokm::file::{InvalidUtf8Policy, MaxFileSize};
use tokm::format::{allocated_percent_tenths, format_number, format_signed, format_unsigned};
use tokm::text_policy::TextPolicy;
use tokm::tokenizer::BuiltinEncoding;

fn paths(items: &[&str]) -> Vec<String> {
    items.iter().map(|item| (*item).to_owned()).collect()
}

#[test]
fn defaults_are_stable_public_semantics() {
    let args = CliArgs::default();
    let options = args.scan_options().unwrap();

    assert_eq!(args.paths, [".".to_owned()]);
    assert_eq!(args.encoding, None);
    assert_eq!(
        options.count_options().tokenizer().metadata_ref().name,
        BuiltinEncoding::O200kBase.as_str()
    );
    assert_eq!(options.count_options().text_policy(), TextPolicy::Literal);
    assert_eq!(options.invalid_utf8(), InvalidUtf8Policy::Skip);
    assert_eq!(
        options.max_file_size(),
        MaxFileSize::Limited(20 * 1024 * 1024)
    );
}

#[test]
fn stdin_must_be_the_only_input() {
    let stdin = input_mode(&paths(&["-"]));
    let mixed = input_mode(&paths(&["-", "src"]));

    assert_eq!(stdin.unwrap(), InputMode::Stdin);
    assert!(mixed.is_err());
}

#[test]
fn size_parser_accepts_binary_suffixes_and_unlimited() {
    let limited = parse_file_size("3MiB").unwrap();
    let unlimited = parse_file_size("unlimited").unwrap();

    assert_eq!(limited, MaxFileSize::Limited(3 * 1024 * 1024));
    assert_eq!(unlimited, MaxFileSize::Unlimited);
}

#[test]
fn largest_remainder_percentages_sum_to_exactly_one_hundred() {
    let percentages = allocated_percent_tenths(&[1, 1, 1]);

    assert_eq!(percentages, [334, 333, 333]);
    assert_eq!(percentages.iter().sum::<u16>(), 1000);
}

#[test]
fn number_formatting_uses_stable_ascii_grouping() {
    assert_eq!(format_number(0), "0");
    assert_eq!(format_number(135_641), "135,641");
    assert_eq!(format_signed(12_402), "+12,402");
    assert_eq!(format_signed(-6_029), "-6,029");
}

#[test]
fn file_size_suffixes_and_errors() {
    assert_eq!(parse_file_size("20M").unwrap(), MaxFileSize::Limited(20 * 1024 * 1024));
    assert_eq!(parse_file_size("7").unwrap(), MaxFileSize::Limited(7));
    assert_eq!(parse_file_size("2kb").unwrap(), MaxFileSize::Limited(2048));
    assert_eq!(parse_file_size("1GiB").unwrap(), MaxFileSize::Limited(1 << 30));
    assert_eq!(parse_file_size("5B").unwrap(), MaxFileSize::Limited(5));
    assert_eq!(parse_file_size("UNLIMITED").unwrap(), MaxFileSize::Unlimited);
    assert_eq!(
        parse_file_size("M").unwrap_err(),
        "file size must be an integer followed by an optional K, M, or G suffix"
    );
    assert_eq!(parse_file_size("12x").unwrap_err(), "unsupported file-size suffix: x");
    assert_eq!(
        parse_file_size("99999999999999999999").unwrap_err(),
        "file size does not fit in u64"
    );
    assert_eq!(
        parse_file_size("18446744073709551615k").unwrap_err(),
        "file size does not fit in u64"
    );
    assert_eq!(
        parse_file_size("18446744073709551615").unwrap(),
        MaxFileSize::Limited(u64::MAX)
    );
}

#[test]
fn encoding_names_parse_or_explain() {
    assert_eq!(parse_encoding("cl100k_base").unwrap(), BuiltinEncoding::Cl100kBase);
    assert_eq!(parse_encoding("p50k").unwrap_err(), "unsupported encoding: p50k");
}

#[test]
fn stdin_alone_twice_is_a_usage_error() {
    let twice = input_mode(&paths(&["-", "-"])).unwrap_err();
    assert_eq!(twice, "stdin (`-`) cannot be combined with filesystem paths");
    assert_eq!(
        input_mode(&paths(&["a", "b"])).unwrap(),
        InputMode::Filesystem(paths(&["a", "b"]))
    );
}

#[test]
fn comparison_expressions() {
    assert_eq!(
        parse_comparison("main..feature").unwrap(),
        Comparison::Trees {
            base: "main".to_owned(),
            head: "feature".to_owned()
        }
    );
    assert_eq!(
        parse_comparison("HEAD~1").unwrap(),
        Comparison::Worktree {
            base: "HEAD~1".to_owned()
        }
    );
    let usage = "Git tree comparison must use non-empty A..B revisions";
    assert_eq!(parse_comparison("HEAD...HEAD").unwrap_err(), usage);
    assert_eq!(parse_comparison("..HEAD").unwrap_err(), usage);
    assert_eq!(parse_comparison("HEAD..").unwrap_err(), usage);
    assert_eq!(parse_comparison("a..b..c").unwrap_err(), usage);
    assert_eq!(parse_comparison("").unwrap_err(), "Git base revision cannot be empty");
    let names = parse_comparison("HEAD").unwrap().snapshot_names();
    assert_eq!(names, ("HEAD".to_owned(), "worktree".to_owned()));
}

#[test]
fn exit_codes_and_budget() {
    assert_eq!(CliError::Usage("x".to_owned()).exit_code(), 2);
    assert_eq!(CliError::Operational("x".to_owned()).exit_code(), 1);
    assert_eq!(budget_overrun(10, Some(4)), Some(6));
    assert_eq!(budget_overrun(4, Some(4)), None);
    assert_eq!(budget_overrun(4, None), None);
}

#[test]
fn percentages_follow_largest_remainders() {
    assert_eq!(allocated_percent_tenths(&[1, 2]), [333, 667]);
    assert_eq!(allocated_percent_tenths(&[5, 0, 0]), [1000, 0, 0]);
    assert_eq!(allocated_percent_tenths(&[0, 0]), [0, 0]);
    assert_eq!(allocated_percent_tenths(&[]), Vec::<u16>::new());
    let many = allocated_percent_tenths(&[7, 3, 3, 3, 1]);
    assert_eq!(many.iter().map(|p| u32::from(*p)).sum::<u32>(), 1000);
    assert_eq!(many, [412, 177, 176, 176, 59]);
}

#[test]
fn extreme_number_formatting() {
    assert_eq!(format_number(u64::MAX), "18,446,744,073,709,551,615");
    assert_eq!(format_signed(0), "+0");
    assert_eq!(
        format_signed(i128::MIN),
        "-170,141,183,460,469,231,731,687,303,715,884,105,728"
    );
    assert_eq!(format_unsigned(1_000), "1,000");
    assert_eq!(format_unsigned(999), "999");
}

#[test]
fn arguments_carry_into_scan_options() {
    let mut args = CliArgs::default();
    args.normalize = true;
    args.encoding = Some(BuiltinEncoding::Cl100kBase);
    args.include_globs = vec!["*.rs".to_owned()];
    args.exclude_globs = vec!["target/**".to_owned(), "*.md".to_owned()];
    args.hidden = true;
    args.threads = Some(3);
    args.no_cache = true;
    args.max_file_size = MaxFileSize::Unlimited;
    let options = args.scan_options().unwrap();

    assert_eq!(options.count_options().text_policy(), TextPolicy::Normalized);
    assert_eq!(
        options.count_options().tokenizer().metadata_ref().name,
        "cl100k_base"
    );
    assert_eq!(options.includes(), &vec!["*.rs".to_owned()]);
    assert_eq!(options.excludes(), &vec!["target/**".to_owned(), "*.md".to_owned()]);
    assert!(options.hidden());
    assert_eq!(options.workers(16), 3);
    assert_eq!(options.max_file_size(), MaxFileSize::Unlimited);
    assert_eq!(
        options.cache_policy(),
        &tokm::cache::CachePolicy::Disabled
    );
}

#[test]
fn unreadable_tokenizer_file_is_reported_with_its_path() {
    let mut args = CliArgs::default();
    args.tokenizer_file = Some(tokm::cli::TokenizerFile {
        path: "missing.json".to_owned(),
        contents: Err("No such file or directory".to_owned()),
    });
    let error = args.scan_options().err().unwrap();
    assert_eq!(
        error.message(),
        "cannot read tokenizer artifact missing.json: No such file or directory"
    );

    args.tokenizer_file = Some(tokm::cli::TokenizerFile {
        path: "invalid.json".to_owned(),
        contents: Ok(b"not JSON".to_vec()),
    });
    let error = args.scan_options().err().unwrap();
    assert!(error.message().starts_with("invalid tokenizer artifact invalid.json: "));
}

#[test]
fn tokenizer_selectors_are_mutually_exclusive() {
    let args = CliArgs {
        encoding: Some(BuiltinEncoding::Cl100kBase),
        tokenizer_file: Some(TokenizerFile {
            path: "tokenizer.json".to_owned(),
            contents: Ok(Vec::new()),
        }),
        ..CliArgs::default()
    };
    let result = args.check_tokenizer_selectors();

    assert!(result.is_err());
}
