//! The lines of the human-readable reports: language and file tables, skip
//! summaries and diagnostics, and the budget failure message.

use vstd::prelude::*;
use vstd::utf8::encode_utf8;

use crate::aggregate::{LanguageResult, ScanFileResult, ScanResult, SkippedSummary};
use crate::classify::Language;
use crate::cli::{CliArgs, DiffExecution, Execution, OutputFormat};
use crate::diff::{DiffFileResult, DiffResult, LanguageDelta};
use crate::cli::SortField;
use crate::path::{chars_order, compare_chars, compare_paths, lemma_path_order, path_order};
use crate::sort::{SortKey, lemma_stable_sorted_is_sorted_among, sorted_by_key, stable_sort, stable_sorted, strict_among};
use crate::classify::lemma_name_width;
use crate::file::SkipDetail;
use crate::format::{
    allocated_percent_tenths, decimal_digits, digits_text, format_number, lemma_format_width,
    format_signed, percent_tenths, spec_format_signed, spec_format_unsigned,
};

verus! {

/// `n` copies of `c`.
pub open spec fn repeat_char(c: char, n: nat) -> Seq<char> {
    Seq::new(n, |i: int| c)
}

/// `s` followed by spaces up to `w` characters.
pub open spec fn pad_right(s: Seq<char>, w: nat) -> Seq<char> {
    if s.len() >= w {
        s
    } else {
        s + repeat_char(' ', (w - s.len()) as nat)
    }
}

/// Spaces up to `w` characters followed by `s`.
pub open spec fn pad_left(s: Seq<char>, w: nat) -> Seq<char> {
    if s.len() >= w {
        s
    } else {
        repeat_char(' ', (w - s.len()) as nat) + s
    }
}

/// The width a text is measured by when sizing columns: its UTF-8 length.
pub open spec fn text_width(s: Seq<char>) -> nat {
    encode_utf8(s).len()
}

/// The views of a list of strings.
pub open spec fn views(v: Seq<String>) -> Seq<Seq<char>> {
    Seq::new(v.len(), |i: int| v[i]@)
}

/// `n` copies of `c`.
pub fn repeated(c: char, n: usize) -> (r: String)
    ensures
        r@ == repeat_char(c, n as nat),
{
    let mut out = String::new();
    let mut i: usize = 0;
    while i < n
        invariant
            i <= n,
            out@ == repeat_char(c, i as nat),
        decreases n - i,
    {
        crate::chars::push_char(&mut out, c);
        i += 1;
        assert(out@ =~= repeat_char(c, i as nat));
    }
    out
}

fn char_count(s: &str) -> (r: usize)
    ensures
        r == s@.len(),
{
    let chars = crate::chars::chars_of(s);
    chars.len()
}

/// `s` followed by spaces up to `w` characters.
pub fn pad_right_to(s: &str, w: usize) -> (r: String)
    ensures
        r@ == pad_right(s@, w as nat),
{
    let n = char_count(s);
    if n >= w {
        s.to_owned()
    } else {
        let mut out = s.to_owned();
        let pad = repeated(' ', w - n);
        out.append(pad.as_str());
        out
    }
}

/// Spaces up to `w` characters followed by `s`.
pub fn pad_left_to(s: &str, w: usize) -> (r: String)
    ensures
        r@ == pad_left(s@, w as nat),
{
    let n = char_count(s);
    if n >= w {
        s.to_owned()
    } else {
        let mut out = repeated(' ', w - n);
        out.append(s);
        out
    }
}

/// The labelled per-reason counts of a skip summary, in report order.
pub open spec fn skip_count_rows(s: SkippedSummary) -> Seq<(Seq<char>, u64)> {
    seq![
        ("binary:"@, s.binary),
        ("oversized:"@, s.oversized),
        ("invalid UTF-8:"@, s.invalid_utf8),
        ("unsupported encoding:"@, s.unsupported_encoding),
        ("unreadable:"@, s.unreadable),
        ("unsupported filesystem type:"@, s.unsupported_filesystem_type),
        ("symlink:"@, s.symlink),
    ]
}

/// The labelled per-reason counts of a skip summary, in report order.
pub fn skip_counts(s: &SkippedSummary) -> (r: Vec<(&'static str, u64)>)
    ensures
        r@.len() == 7,
        forall|i: int| 0 <= i < 7 ==> (#[trigger] r@[i]).0@ == skip_count_rows(*s)[i].0 && r@[i].1
            == skip_count_rows(*s)[i].1,
{
    let mut r: Vec<(&'static str, u64)> = Vec::new();
    r.push(("binary:", s.binary));
    r.push(("oversized:", s.oversized));
    r.push(("invalid UTF-8:", s.invalid_utf8));
    r.push(("unsupported encoding:", s.unsupported_encoding));
    r.push(("unreadable:", s.unreadable));
    r.push(("unsupported filesystem type:", s.unsupported_filesystem_type));
    r.push(("symlink:", s.symlink));
    r
}

/// One line per non-zero count.
pub open spec fn count_lines(rows: Seq<(Seq<char>, u64)>) -> Seq<Seq<char>>
    decreases rows.len(),
{
    if rows.len() == 0 {
        Seq::empty()
    } else {
        let p = count_lines(rows.drop_last());
        let row = rows.last();
        if row.1 > 0 {
            p.push("  "@ + pad_right(row.0, 28) + " "@ + spec_format_unsigned(row.1 as nat))
        } else {
            p
        }
    }
}

/// The skip summary block of a report: nothing when nothing was skipped.
pub open spec fn skip_summary_lines(s: SkippedSummary) -> Seq<Seq<char>> {
    if s.total == 0 {
        Seq::empty()
    } else {
        seq![
            Seq::<char>::empty(),
            "Skipped: "@ + spec_format_unsigned(s.total as nat) + " "@ + (if s.total == 1 {
                "file"@
            } else {
                "files"@
            }),
        ] + count_lines(skip_count_rows(s))
    }
}

/// Push the concatenation of texts as one line.
fn push_line(lines: &mut Vec<String>, parts: &Vec<&str>) -> (r: ())
    ensures
        final(lines)@.len() == old(lines)@.len() + 1,
        final(lines)@.drop_last() == old(lines)@,
        final(lines)@.last()@ == joined(parts@),
{
    let mut line = String::new();
    let mut i: usize = 0;
    assert(parts@.take(0) =~= Seq::<&str>::empty());
    while i < parts.len()
        invariant
            i <= parts.len(),
            line@ == joined(parts@.take(i as int)),
        decreases parts.len() - i,
    {
        line.append(parts[i]);
        assert(parts@.take(i as int + 1).drop_last() =~= parts@.take(i as int));
        i += 1;
    }
    assert(parts@.take(parts.len() as int) =~= parts@);
    lines.push(line);
    assert(lines@.drop_last() =~= old(lines)@);
}

/// The concatenation of texts.
pub open spec fn joined(parts: Seq<&str>) -> Seq<char>
    decreases parts.len(),
{
    if parts.len() == 0 {
        Seq::empty()
    } else {
        joined(parts.drop_last()) + parts.last()@
    }
}

/// The skip summary block of a report.
pub fn skip_summary(s: &SkippedSummary) -> (r: Vec<String>)
    ensures
        views(r@) == skip_summary_lines(*s),
{
    let mut lines: Vec<String> = Vec::new();
    if s.total == 0 {
        assert(views(lines@) =~= skip_summary_lines(*s));
        return lines;
    }
    lines.push(String::new());
    let ghost first = lines@;
    let total = format_number(s.total);
    let noun = if s.total == 1 { "file" } else { "files" };
    let parts: Vec<&str> = vec!["Skipped: ", total.as_str(), " ", noun];
    push_line(&mut lines, &parts);
    proof {
        reveal_with_fuel(joined, 5);
        assert(parts@.take(0) =~= Seq::<&str>::empty());
        assert(joined(parts@) =~= "Skipped: "@ + total@ + " "@ + noun@);
    }
    proof {
        assert(lines@.drop_last() == first);
        assert(first.len() == 1);
        assert(first[0]@ == Seq::<char>::empty());
        assert(lines@.len() == 2);
        assert(lines@[0]@ == Seq::<char>::empty());
        assert(noun@ == (if s.total == 1 { "file"@ } else { "files"@ }));
        assert(lines@[1]@ == "Skipped: "@ + spec_format_unsigned(s.total as nat) + " "@ + (if s.total == 1 {
                "file"@
            } else {
                "files"@
            }));
        assert(views(lines@) =~= seq![
            Seq::<char>::empty(),
            "Skipped: "@ + spec_format_unsigned(s.total as nat) + " "@ + (if s.total == 1 {
                "file"@
            } else {
                "files"@
            }),
        ]);
    }
    let counts = skip_counts(s);
    let ghost rows = skip_count_rows(*s);
    let ghost head = views(lines@);
    let mut i: usize = 0;
    assert(rows.take(0) =~= Seq::<(Seq<char>, u64)>::empty());
    while i < 7
        invariant
            counts@.len() == 7,
            rows == skip_count_rows(*s),
            forall|k: int| 0 <= k < 7 ==> (#[trigger] counts@[k]).0@ == rows[k].0 && counts@[k].1
                == rows[k].1,
            i <= 7,
            views(lines@) == head + count_lines(rows.take(i as int)),
            head == seq![
                Seq::<char>::empty(),
                "Skipped: "@ + spec_format_unsigned(s.total as nat) + " "@ + (if s.total == 1 {
                    "file"@
                } else {
                    "files"@
                }),
            ],
        decreases 7 - i,
    {
        let (label, count) = counts[i];
        assert(rows.take(i as int + 1).drop_last() =~= rows.take(i as int));
        assert(rows.take(i as int + 1).last() == rows[i as int]);
        if count > 0 {
            let padded = pad_right_to(label, 28);
            let number = format_number(count);
            let parts: Vec<&str> = vec!["  ", padded.as_str(), " ", number.as_str()];
            let ghost before = lines@;
            push_line(&mut lines, &parts);
            proof {
                reveal_with_fuel(joined, 5);
                assert(parts@.take(0) =~= Seq::<&str>::empty());
                assert(joined(parts@) =~= "  "@ + padded@ + " "@ + number@);
                assert(views(lines@) =~= views(before).push(lines@.last()@));
            }
        }
        i += 1;
    }
    proof {
        assert(rows.take(7) =~= rows);
    }
    lines
}

/// One diagnostic line for a skipped path, tagged with its snapshot when given.
pub open spec fn skip_detail_line(snapshot: Option<Seq<char>>, d: SkipDetail) -> Seq<char> {
    "skipped"@ + (match snapshot {
        Some(s) => " ["@ + s + "]"@,
        None => Seq::empty(),
    }) + " ("@ + d.reason.spec_label() + "): "@ + d.path@ + (match d.detail {
        Some(x) => " ("@ + x@ + ")"@,
        None => Seq::empty(),
    })
}

/// One diagnostic line for a skipped path.
pub fn skip_detail_text(snapshot: Option<&str>, d: &SkipDetail) -> (r: String)
    ensures
        r@ == skip_detail_line(crate::cache::str_view(snapshot), *d),
{
    let mut line = "skipped".to_owned();
    match snapshot {
        Some(s) => {
            line.append(" [");
            line.append(s);
            line.append("]");
        },
        None => {},
    }
    line.append(" (");
    line.append(d.reason.as_str());
    line.append("): ");
    line.append(d.path.as_str());
    match &d.detail {
        Some(x) => {
            line.append(" (");
            line.append(x.as_str());
            line.append(")");
        },
        None => {},
    }
    proof {
        assert(line@ =~= skip_detail_line(crate::cache::str_view(snapshot), *d));
    }
    line
}

/// The lines of the budget failure message.
pub open spec fn budget_failure_lines(total: u64, budget: u64) -> Seq<Seq<char>> {
    seq![
        "Token budget exceeded"@,
        "  Total:       "@ + spec_format_unsigned(total as nat) + " tokens"@,
        "  Budget:      "@ + spec_format_unsigned(budget as nat) + " tokens"@,
        "  Exceeded by: "@ + spec_format_unsigned((total - budget) as nat) + " tokens"@,
    ]
}

/// The lines of the budget failure message.
pub fn budget_failure(total: u64, budget: u64) -> (r: Vec<String>)
    requires
        total >= budget,
    ensures
        views(r@) == budget_failure_lines(total, budget),
{
    let mut lines: Vec<String> = Vec::new();
    lines.push("Token budget exceeded".to_owned());
    let mut a = "  Total:       ".to_owned();
    a.append(format_number(total).as_str());
    a.append(" tokens");
    lines.push(a);
    let mut b = "  Budget:      ".to_owned();
    b.append(format_number(budget).as_str());
    b.append(" tokens");
    lines.push(b);
    let mut c = "  Exceeded by: ".to_owned();
    c.append(format_number(total - budget).as_str());
    c.append(" tokens");
    lines.push(c);
    assert(views(lines@) =~= budget_failure_lines(total, budget));
    lines
}

/// The larger of two widths.
pub open spec fn wider(a: nat, b: nat) -> nat {
    if a >= b { a } else { b }
}

/// Widest language name.
pub open spec fn names_width(ls: Seq<LanguageResult>) -> nat
    decreases ls.len(),
{
    if ls.len() == 0 {
        0
    } else {
        wider(names_width(ls.drop_last()), text_width(ls.last().name.spec_name()))
    }
}

/// Widest formatted file count.
pub open spec fn files_width(ls: Seq<LanguageResult>) -> nat
    decreases ls.len(),
{
    if ls.len() == 0 {
        0
    } else {
        wider(files_width(ls.drop_last()), text_width(spec_format_unsigned(ls.last().files as nat)))
    }
}

/// Widest formatted token count.
pub open spec fn tokens_width(ls: Seq<LanguageResult>) -> nat
    decreases ls.len(),
{
    if ls.len() == 0 {
        0
    } else {
        wider(tokens_width(ls.drop_last()), text_width(spec_format_unsigned(ls.last().tokens as nat)))
    }
}

/// A share in tenths of a percent as text, such as `33.4%`.
pub open spec fn percent_text(p: nat) -> Seq<char> {
    decimal_digits(p / 10) + "."@ + decimal_digits(p % 10) + "%"@
}

/// One row of the language table.
pub open spec fn language_row(a: Seq<char>, b: Seq<char>, c: Seq<char>, d: Seq<char>, lw: nat, fw: nat, tw: nat) -> Seq<char> {
    " "@ + pad_right(a, lw) + "  "@ + pad_left(b, fw) + "  "@ + pad_left(c, tw) + "  "@ + pad_left(d, 7)
}

/// The token counts of the language rows.
pub open spec fn language_tokens(ls: Seq<LanguageResult>) -> Seq<u64> {
    Seq::new(ls.len(), |i: int| ls[i].tokens)
}

/// The language table of a scan: a header, one row per language with its
/// share of the tokens, a total row, then the skip summary.
pub open spec fn language_table_lines(r: ScanResult) -> Seq<Seq<char>> {
    let ls = r.languages@;
    let lw = wider(names_width(ls), 8);
    let fw = wider(files_width(ls), 5);
    let tw = wider(wider(tokens_width(ls), text_width(spec_format_unsigned(r.totals.tokens as nat))), 6);
    let rule = repeat_char('-', lw + fw + tw + 13);
    seq![language_row("Language"@, "Files"@, "Tokens"@, "Percent"@, lw, fw, tw), rule] + Seq::new(
        ls.len(),
        |i: int|
            language_row(
                ls[i].name.spec_name(),
                spec_format_unsigned(ls[i].files as nat),
                spec_format_unsigned(ls[i].tokens as nat),
                percent_text(percent_tenths(language_tokens(ls), i)),
                lw,
                fw,
                tw,
            ),
    ) + seq![
        rule,
        language_row(
            "Total"@,
            spec_format_unsigned(r.totals.files as nat),
            spec_format_unsigned(r.totals.tokens as nat),
            if r.totals.tokens == 0 { "0.0%"@ } else { "100.0%"@ },
            lw,
            fw,
            tw,
        ),
    ] + skip_summary_lines(r.skipped)
}

fn language_row_text(a: &str, b: &str, c: &str, d: &str, lw: usize, fw: usize, tw: usize) -> (r: String)
    ensures
        r@ == language_row(a@, b@, c@, d@, lw as nat, fw as nat, tw as nat),
{
    let mut line = " ".to_owned();
    line.append(pad_right_to(a, lw).as_str());
    line.append("  ");
    line.append(pad_left_to(b, fw).as_str());
    line.append("  ");
    line.append(pad_left_to(c, tw).as_str());
    line.append("  ");
    line.append(pad_left_to(d, 7).as_str());
    proof {
        assert(line@ =~= language_row(a@, b@, c@, d@, lw as nat, fw as nat, tw as nat));
    }
    line
}

/// A share in tenths of a percent as text.
pub fn percent_string(p: u16) -> (r: String)
    ensures
        r@ == percent_text(p as nat),
{
    let mut s = digits_text((p / 10) as u128);
    s.append(".");
    s.append(digits_text((p % 10) as u128).as_str());
    s.append("%");
    s
}

/// The language table of a scan.
#[verifier::rlimit(40)]
pub fn language_table(r: &ScanResult) -> (out: Vec<String>)
    ensures
        views(out@) == language_table_lines(*r),
{
    let ls = &r.languages;
    let ghost lsv = ls@;
    let mut lw: usize = 0;
    let mut fw: usize = 0;
    let mut tw: usize = 0;
    let mut tokens: Vec<u64> = Vec::new();
    let mut i: usize = 0;
    assert(lsv.take(0) =~= Seq::<LanguageResult>::empty());
    while i < ls.len()
        invariant
            lsv == ls@,
            i <= ls.len(),
            lw as nat == names_width(lsv.take(i as int)),
            fw as nat == files_width(lsv.take(i as int)),
            tw as nat == tokens_width(lsv.take(i as int)),
            lw <= 14,
            fw <= 26,
            tw <= 26,
            tokens@ == language_tokens(lsv.take(i as int)),
        decreases ls.len() - i,
    {
        let l = &ls[i];
        assert(lsv.take(i as int + 1).drop_last() =~= lsv.take(i as int));
        let name_len = l.name.as_str().len();
        let files_len = format_number(l.files).as_str().len();
        let tokens_len = format_number(l.tokens).as_str().len();
        proof {
            lemma_name_width(l.name);
            lemma_format_width(l.files as nat);
            lemma_format_width(l.tokens as nat);
        }
        if name_len > lw {
            lw = name_len;
        }
        if files_len > fw {
            fw = files_len;
        }
        if tokens_len > tw {
            tw = tokens_len;
        }
        tokens.push(l.tokens);
        assert(tokens@ =~= language_tokens(lsv.take(i as int + 1)));
        i += 1;
    }
    assert(lsv.take(ls.len() as int) =~= lsv);
    let total_len = format_number(r.totals.tokens).as_str().len();
    proof {
        lemma_format_width(r.totals.tokens as nat);
    }
    if total_len > tw {
        tw = total_len;
    }
    if lw < 8 {
        lw = 8;
    }
    if fw < 5 {
        fw = 5;
    }
    if tw < 6 {
        tw = 6;
    }
    let percentages = allocated_percent_tenths(tokens.as_slice());
    let rule = repeated('-', lw + fw + tw + 13);
    let mut out: Vec<String> = Vec::new();
    out.push(language_row_text("Language", "Files", "Tokens", "Percent", lw, fw, tw));
    out.push(rule.clone());
    let ghost head = views(out@);
    let mut k: usize = 0;
    while k < ls.len()
        invariant
            lsv == ls@,
            k <= ls.len(),
            percentages@.len() == ls.len(),
            tokens@ == language_tokens(lsv),
            forall|j: int| 0 <= j < lsv.len() ==> percentages@[j] as nat == percent_tenths(tokens@, j),
            views(out@) == head + Seq::new(
                k as nat,
                |j: int|
                    language_row(
                        lsv[j].name.spec_name(),
                        spec_format_unsigned(lsv[j].files as nat),
                        spec_format_unsigned(lsv[j].tokens as nat),
                        percent_text(percent_tenths(language_tokens(lsv), j)),
                        lw as nat,
                        fw as nat,
                        tw as nat,
                    ),
            ),
        decreases ls.len() - k,
    {
        let l = &ls[k];
        let files = format_number(l.files);
        let toks = format_number(l.tokens);
        let pct = percent_string(percentages[k]);
        let row = language_row_text(l.name.as_str(), files.as_str(), toks.as_str(), pct.as_str(), lw, fw, tw);
        let ghost before = out@;
        out.push(row);
        proof {
            assert(views(out@) =~= views(before).push(row@));
        }
        k += 1;
        proof {
            assert(views(out@) =~= head + Seq::new(
                k as nat,
                |j: int|
                    language_row(
                        lsv[j].name.spec_name(),
                        spec_format_unsigned(lsv[j].files as nat),
                        spec_format_unsigned(lsv[j].tokens as nat),
                        percent_text(percent_tenths(language_tokens(lsv), j)),
                        lw as nat,
                        fw as nat,
                        tw as nat,
                    ),
            ));
        }
    }
    let ghost body = views(out@);
    out.push(rule);
    let total_files = format_number(r.totals.files);
    let total_tokens = format_number(r.totals.tokens);
    let total_percent = if r.totals.tokens == 0 { "0.0%" } else { "100.0%" };
    out.push(language_row_text("Total", total_files.as_str(), total_tokens.as_str(), total_percent, lw, fw, tw));
    let ghost with_total = views(out@);
    proof {
        assert(with_total =~= body + seq![
            repeat_char('-', (lw + fw + tw + 13) as nat),
            language_row(
                "Total"@,
                spec_format_unsigned(r.totals.files as nat),
                spec_format_unsigned(r.totals.tokens as nat),
                if r.totals.tokens == 0 { "0.0%"@ } else { "100.0%"@ },
                lw as nat,
                fw as nat,
                tw as nat,
            ),
        ]);
    }
    let skipped = skip_summary(&r.skipped);
    append_lines(&mut out, &skipped);
    proof {
        assert(views(out@) =~= language_table_lines(*r));
    }
    out
}

/// The sort key of one row of a per-file table.
pub struct RowKey {
    /// Tokens (or added plus removed tokens) of the row.
    pub weight: u128,
    /// Path of the row.
    pub path: String,
    /// Language of the row.
    pub language: Language,
    /// Position of the row before sorting.
    pub index: usize,
    /// The order asked for.
    pub field: SortField,
}

/// The order of per-file rows: by weight descending then path, by path, or
/// by language name then path.
pub open spec fn row_after(field: SortField, a: RowKey, b: RowKey) -> bool {
    match field {
        SortField::Tokens => a.weight < b.weight || (a.weight == b.weight && path_order(a.path@, b.path@) > 0),
        SortField::Path => path_order(a.path@, b.path@) > 0,
        SortField::Language => chars_order(a.language.spec_name(), b.language.spec_name()) > 0 || (
        chars_order(a.language.spec_name(), b.language.spec_name()) == 0 && path_order(a.path@, b.path@) > 0),
    }
}

impl SortKey for RowKey {
    open spec fn spec_after(&self, other: &Self) -> bool {
        row_after(self.field, *self, *other)
    }

    fn after(&self, other: &Self) -> (r: bool) {
        match self.field {
            SortField::Tokens => {
                if self.weight != other.weight {
                    self.weight < other.weight
                } else {
                    compare_paths(self.path.as_str(), other.path.as_str()) > 0
                }
            },
            SortField::Path => compare_paths(self.path.as_str(), other.path.as_str()) > 0,
            SortField::Language => {
                let a = crate::chars::chars_of(self.language.as_str());
                let b = crate::chars::chars_of(other.language.as_str());
                let c = compare_chars(a.as_slice(), b.as_slice());
                if c != 0 {
                    c > 0
                } else {
                    compare_paths(self.path.as_str(), other.path.as_str()) > 0
                }
            },
        }
    }
}

/// The sort keys of the rows of a scan's file table.
pub open spec fn file_keys(files: Seq<ScanFileResult>, field: SortField) -> Seq<RowKey> {
    Seq::new(
        files.len(),
        |i: int|
            RowKey { weight: files[i].tokens as u128, path: files[i].path, language: files[i].language, index: i as usize, field },
    )
}

/// The positions of the files in table order.
pub open spec fn file_order(files: Seq<ScanFileResult>, field: SortField) -> Seq<int> {
    let sorted = stable_sorted(file_keys(files, field));
    Seq::new(sorted.len(), |j: int| sorted[j].index as int)
}

/// Widest formatted token count of a list of files.
pub open spec fn file_tokens_width(fs: Seq<ScanFileResult>) -> nat
    decreases fs.len(),
{
    if fs.len() == 0 {
        0
    } else {
        wider(file_tokens_width(fs.drop_last()), text_width(spec_format_unsigned(fs.last().tokens as nat)))
    }
}

/// Widest language name of a list of files.
pub open spec fn file_language_width(fs: Seq<ScanFileResult>) -> nat
    decreases fs.len(),
{
    if fs.len() == 0 {
        0
    } else {
        wider(file_language_width(fs.drop_last()), text_width(fs.last().language.spec_name()))
    }
}

/// Widest path of a list of files.
pub open spec fn file_path_width(fs: Seq<ScanFileResult>) -> nat
    decreases fs.len(),
{
    if fs.len() == 0 {
        0
    } else {
        wider(file_path_width(fs.drop_last()), text_width(fs.last().path@))
    }
}

/// One row of the file table.
pub open spec fn file_row(tokens: Seq<char>, language: Seq<char>, rest: Seq<char>, tw: nat, lw: nat) -> Seq<char> {
    " "@ + pad_left(tokens, tw) + "  "@ + pad_right(language, lw) + "  "@ + rest
}

/// The file table of a scan: a header, one row per file in the requested
/// order, a total row, then the skip summary.
pub open spec fn file_table_lines(r: ScanResult, field: SortField) -> Seq<Seq<char>> {
    let fs = r.files@;
    let order = file_order(fs, field);
    let tw = wider(file_tokens_width(fs), 6);
    let lw = wider(file_language_width(fs), 8);
    let pw = wider(file_path_width(fs), 4);
    let rule = repeat_char('-', tw + lw + pw + 8);
    seq![file_row("Tokens"@, "Language"@, "File"@, tw, lw), rule] + Seq::new(
        order.len(),
        |j: int|
            file_row(
                spec_format_unsigned(fs[order[j]].tokens as nat),
                fs[order[j]].language.spec_name(),
                fs[order[j]].path@,
                tw,
                lw,
            ),
    ) + seq![
        rule,
        file_row(
            spec_format_unsigned(r.totals.tokens as nat),
            Seq::empty(),
            "Total ("@ + spec_format_unsigned(r.totals.files as nat) + " files)"@,
            tw,
            lw,
        ),
    ] + skip_summary_lines(r.skipped)
}

fn file_row_text(tokens: &str, language: &str, rest: &str, tw: usize, lw: usize) -> (r: String)
    ensures
        r@ == file_row(tokens@, language@, rest@, tw as nat, lw as nat),
{
    let mut line = " ".to_owned();
    line.append(pad_left_to(tokens, tw).as_str());
    line.append("  ");
    line.append(pad_right_to(language, lw).as_str());
    line.append("  ");
    line.append(rest);
    proof {
        assert(line@ =~= file_row(tokens@, language@, rest@, tw as nat, lw as nat));
    }
    line
}

proof fn lemma_sorted_indices(keys: Seq<RowKey>)
    requires
        forall|i: int| 0 <= i < keys.len() ==> (#[trigger] keys[i]).index as int == i,
    ensures
        stable_sorted(keys).len() == keys.len(),
        forall|j: int| 0 <= j < keys.len() ==> 0 <= (#[trigger] stable_sorted(keys)[j]).index < keys.len()
            && stable_sorted(keys)[j] == keys[stable_sorted(keys)[j].index as int],
{
    crate::sort::lemma_stable_sorted_members(keys);
    assert forall|j: int| 0 <= j < keys.len() implies 0 <= (#[trigger] stable_sorted(keys)[j]).index < keys.len()
        && stable_sorted(keys)[j] == keys[stable_sorted(keys)[j].index as int] by {
        let i = choose|i: int| 0 <= i < keys.len() && keys[i] == stable_sorted(keys)[j];
    }
}

/// Append a block of lines.
fn append_lines(out: &mut Vec<String>, more: &Vec<String>)
    ensures
        views(final(out)@) == views(old(out)@) + views(more@),
{
    let ghost start = views(out@);
    let mut m: usize = 0;
    while m < more.len()
        invariant
            m <= more.len(),
            views(out@) == start + views(more@).take(m as int),
        decreases more.len() - m,
    {
        let ghost before = out@;
        let line = more[m].clone();
        out.push(line);
        proof {
            assert(views(out@) =~= views(before).push(line@));
            assert(views(more@)[m as int] == line@);
            assert(views(out@) =~= start + views(more@).take(m as int + 1));
        }
        m += 1;
    }
    assert(views(more@).take(more@.len() as int) =~= views(more@));
}

/// The file table of a scan.
#[verifier::rlimit(40)]
pub fn file_table(r: &ScanResult, field: SortField) -> (out: Vec<String>)
    requires
        forall|i: int| 0 <= i < r.files@.len() ==> text_width(#[trigger] r.files@[i].path@) <= usize::MAX - 64,
    ensures
        views(out@) == file_table_lines(*r, field),
{
    let fs = &r.files;
    let ghost fsv = fs@;
    let mut tw: usize = 0;
    let mut lw: usize = 0;
    let mut pw: usize = 0;
    let mut keys: Vec<RowKey> = Vec::new();
    let mut i: usize = 0;
    assert(fsv.take(0) =~= Seq::<ScanFileResult>::empty());
    while i < fs.len()
        invariant
            fsv == fs@,
            i <= fs.len(),
            forall|k: int| 0 <= k < fsv.len() ==> text_width(#[trigger] fsv[k].path@) <= usize::MAX - 64,
            tw as nat == file_tokens_width(fsv.take(i as int)),
            lw as nat == file_language_width(fsv.take(i as int)),
            pw as nat == file_path_width(fsv.take(i as int)),
            tw <= 26,
            lw <= 14,
            pw <= usize::MAX - 64,
            keys@ == file_keys(fsv.take(i as int), field),
        decreases fs.len() - i,
    {
        let f = &fs[i];
        assert(fsv.take(i as int + 1).drop_last() =~= fsv.take(i as int));
        let tokens_len = format_number(f.tokens).as_str().len();
        let language_len = f.language.as_str().len();
        let path_len = f.path.as_str().len();
        proof {
            lemma_name_width(f.language);
            lemma_format_width(f.tokens as nat);
        }
        if tokens_len > tw {
            tw = tokens_len;
        }
        if language_len > lw {
            lw = language_len;
        }
        if path_len > pw {
            pw = path_len;
        }
        keys.push(RowKey { weight: f.tokens as u128, path: f.path.clone(), language: f.language, index: i, field });
        assert(keys@ =~= file_keys(fsv.take(i as int + 1), field));
        i += 1;
    }
    assert(fsv.take(fs.len() as int) =~= fsv);
    if tw < 6 {
        tw = 6;
    }
    if lw < 8 {
        lw = 8;
    }
    if pw < 4 {
        pw = 4;
    }
    let ghost key_seq = keys@;
    proof {
        lemma_sorted_indices(key_seq);
    }
    let sorted = stable_sort(keys);
    let rule = repeated('-', tw + lw + pw + 8);
    let mut out: Vec<String> = Vec::new();
    out.push(file_row_text("Tokens", "Language", "File", tw, lw));
    out.push(rule.clone());
    let ghost head = views(out@);
    let ghost order = file_order(fsv, field);
    let mut k: usize = 0;
    while k < sorted.len()
        invariant
            fsv == fs@,
            sorted@ == stable_sorted(key_seq),
            key_seq == file_keys(fsv, field),
            order == file_order(fsv, field),
            sorted@.len() == fsv.len(),
            forall|j: int| 0 <= j < fsv.len() ==> 0 <= (#[trigger] sorted@[j]).index < fsv.len()
                && sorted@[j] == key_seq[sorted@[j].index as int],
            k <= sorted.len(),
            views(out@) == head + Seq::new(
                k as nat,
                |j: int|
                    file_row(
                        spec_format_unsigned(fsv[order[j]].tokens as nat),
                        fsv[order[j]].language.spec_name(),
                        fsv[order[j]].path@,
                        tw as nat,
                        lw as nat,
                    ),
            ),
        decreases sorted.len() - k,
    {
        let idx = sorted[k].index;
        let f = &fs[idx];
        let toks = format_number(f.tokens);
        let row = file_row_text(toks.as_str(), f.language.as_str(), f.path.as_str(), tw, lw);
        let ghost before = out@;
        out.push(row);
        proof {
            assert(order[k as int] == idx as int);
            assert(views(out@) =~= views(before).push(row@));
        }
        k += 1;
        proof {
            assert(views(out@) =~= head + Seq::new(
                k as nat,
                |j: int|
                    file_row(
                        spec_format_unsigned(fsv[order[j]].tokens as nat),
                        fsv[order[j]].language.spec_name(),
                        fsv[order[j]].path@,
                        tw as nat,
                        lw as nat,
                    ),
            ));
        }
    }
    let ghost body = views(out@);
    proof {
        assert(body =~= head + Seq::new(
            order.len(),
            |j: int|
                file_row(
                    spec_format_unsigned(fsv[order[j]].tokens as nat),
                    fsv[order[j]].language.spec_name(),
                    fsv[order[j]].path@,
                    tw as nat,
                    lw as nat,
                ),
        ));
    }
    out.push(rule);
    let total_tokens = format_number(r.totals.tokens);
    let mut rest = "Total (".to_owned();
    rest.append(format_number(r.totals.files).as_str());
    rest.append(" files)");
    let total_row = file_row_text(total_tokens.as_str(), "", rest.as_str(), tw, lw);
    proof {
        reveal_strlit("");
        assert(""@ =~= Seq::<char>::empty());
    }
    out.push(total_row);
    let ghost with_total = views(out@);
    proof {
        assert(with_total =~= body + seq![
            repeat_char('-', (tw + lw + pw + 8) as nat),
            file_row(
                spec_format_unsigned(r.totals.tokens as nat),
                Seq::empty(),
                "Total ("@ + spec_format_unsigned(r.totals.files as nat) + " files)"@,
                tw as nat,
                lw as nat,
            ),
        ]);
    }
    let skipped = skip_summary(&r.skipped);
    append_lines(&mut out, &skipped);
    proof {
        assert(views(out@) =~= file_table_lines(*r, field));
    }
    out
}

/// The sort keys of the rows of a comparison's file table.
pub open spec fn diff_keys(files: Seq<DiffFileResult>, field: SortField) -> Seq<RowKey> {
    Seq::new(
        files.len(),
        |i: int|
            RowKey {
                weight: (files[i].tokens.added + files[i].tokens.removed) as u128,
                path: files[i].path,
                language: files[i].language,
                index: i as usize,
                field,
            },
    )
}

/// The positions of the changed files in table order.
pub open spec fn diff_order(files: Seq<DiffFileResult>, field: SortField) -> Seq<int> {
    let sorted = stable_sorted(diff_keys(files, field));
    Seq::new(sorted.len(), |j: int| sorted[j].index as int)
}

/// One row of a comparison's file table.
pub open spec fn diff_file_row(f: DiffFileResult) -> Seq<char> {
    " "@ + pad_left(spec_format_signed(f.tokens.net as int), 12) + "  "@ + pad_right(f.language.spec_name(), 16)
        + "  "@ + f.path@
}

/// The file block of a comparison table: nothing when no file changed.
pub open spec fn diff_file_lines(d: DiffResult, field: SortField) -> Seq<Seq<char>> {
    let fs = d.files@;
    let order = diff_order(fs, field);
    if fs.len() == 0 {
        Seq::empty()
    } else {
        seq![Seq::<char>::empty(), "          Net  Language          File"@, repeat_char('-', 66)] + Seq::new(
            order.len(),
            |j: int| diff_file_row(fs[order[j]]),
        )
    }
}

/// One row of a comparison's language table.
pub open spec fn diff_language_row(l: LanguageDelta) -> Seq<char> {
    " "@ + pad_right(l.name.spec_name(), 26) + "  "@ + pad_left("+"@ + spec_format_unsigned(l.tokens.added as nat), 11)
        + "  "@ + pad_left("-"@ + spec_format_unsigned(l.tokens.removed as nat), 11) + "  "@ + pad_left(
        spec_format_signed(l.tokens.net as int),
        12,
    )
}

/// The language block of a comparison table: nothing when no language changed.
pub open spec fn diff_language_lines(d: DiffResult) -> Seq<Seq<char>> {
    let ls = d.languages@;
    if ls.len() == 0 {
        Seq::empty()
    } else {
        seq![
            Seq::<char>::empty(),
            " Language                       Added       Removed           Net"@,
            repeat_char('-', 66),
        ] + Seq::new(ls.len(), |i: int| diff_language_row(ls[i]))
    }
}

/// The skip block of one snapshot of a comparison: nothing when nothing was skipped.
pub open spec fn diff_skip_lines(name: Seq<char>, s: SkippedSummary) -> Seq<Seq<char>> {
    if s.total == 0 {
        Seq::empty()
    } else {
        seq![Seq::<char>::empty(), name + " snapshot:"@] + skip_summary_lines(s)
    }
}

/// The table of a comparison: the headline delta, then per-file rows or
/// per-language rows, then the skip blocks of both snapshots.
pub open spec fn diff_table_lines(e: DiffExecution, files: bool, field: SortField) -> Seq<Seq<char>> {
    let d = e.result;
    seq![
        " Token delta ("@ + e.base@ + " -> "@ + e.head@ + ")"@,
        repeat_char('-', 42),
        " Added tokens          +"@ + spec_format_unsigned(d.tokens.added as nat),
        " Removed tokens        -"@ + spec_format_unsigned(d.tokens.removed as nat),
        " Net                    "@ + spec_format_signed(d.tokens.net as int),
    ] + (if files { diff_file_lines(d, field) } else { diff_language_lines(d) }) + diff_skip_lines("Base"@, d.base_skipped)
        + diff_skip_lines("Head"@, d.head_skipped)
}

proof fn lemma_token_rows_strict()
    ensures
        strict_among(|k: RowKey| k.field == SortField::Tokens),
{
    let p = |k: RowKey| k.field == SortField::Tokens;
    assert forall|a: RowKey, b: RowKey| p(a) && p(b) && #[trigger] a.spec_after(&b) implies !b.spec_after(&a) by {
        lemma_path_order(a.path@, b.path@, a.path@);
    }
    assert forall|a: RowKey, b: RowKey, c: RowKey| p(a) && p(b) && p(c) && #[trigger] a.spec_after(&b)
        && #[trigger] b.spec_after(&c) implies a.spec_after(&c) by {
        lemma_path_order(a.path@, b.path@, c.path@);
        lemma_path_order(c.path@, b.path@, a.path@);
        lemma_path_order(b.path@, c.path@, a.path@);
        lemma_path_order(a.path@, c.path@, b.path@);
    }
}

/// Ordered by tokens, a comparison's file table lists every changed file's row
/// by impact (added plus removed tokens), largest first, rows of equal impact
/// in path order.
pub proof fn law_diff_rows_by_impact(d: DiffResult)
    ensures
        diff_order(d.files@, SortField::Tokens).len() == d.files@.len(),
        d.files@.len() > 0 ==> diff_file_lines(d, SortField::Tokens).len() == d.files@.len() + 3,
        forall|j: int| 0 <= j < d.files@.len() ==> 0 <= #[trigger] diff_order(d.files@, SortField::Tokens)[j]
            < d.files@.len() && diff_file_lines(d, SortField::Tokens)[j + 3] == diff_file_row(
            d.files@[diff_order(d.files@, SortField::Tokens)[j]],
        ),
        forall|j: int, k: int| 0 <= j < k < d.files@.len() ==> ({
            let a = d.files@[#[trigger] diff_order(d.files@, SortField::Tokens)[j]];
            let b = d.files@[#[trigger] diff_order(d.files@, SortField::Tokens)[k]];
            &&& a.tokens.added + a.tokens.removed >= b.tokens.added + b.tokens.removed
            &&& a.tokens.added + a.tokens.removed == b.tokens.added + b.tokens.removed ==> path_order(
                a.path@,
                b.path@,
            ) <= 0
        }),
{
    let fs = d.files@;
    let keys = diff_keys(fs, SortField::Tokens);
    let order = diff_order(fs, SortField::Tokens);
    let sorted = stable_sorted(keys);
    assert(fs.len() == d.files.len());
    assert forall|i: int| 0 <= i < keys.len() implies (#[trigger] keys[i]).index as int == i by {
        assert(i < d.files.len());
    }
    lemma_sorted_indices(keys);
    lemma_token_rows_strict();
    lemma_stable_sorted_is_sorted_among(keys, |k: RowKey| k.field == SortField::Tokens);
    assert forall|j: int, k: int| 0 <= j < k < fs.len() implies ({
        let a = fs[#[trigger] order[j]];
        let b = fs[#[trigger] order[k]];
        &&& a.tokens.added + a.tokens.removed >= b.tokens.added + b.tokens.removed
        &&& a.tokens.added + a.tokens.removed == b.tokens.added + b.tokens.removed ==> path_order(a.path@, b.path@) <= 0
    }) by {
        assert(!sorted[j].spec_after(&sorted[k]));
        assert(sorted[j] == keys[sorted[j].index as int]);
        assert(sorted[k] == keys[sorted[k].index as int]);
    }
}

fn diff_file_row_text(f: &DiffFileResult) -> (r: String)
    ensures
        r@ == diff_file_row(*f),
{
    let mut line = " ".to_owned();
    line.append(pad_left_to(format_signed(f.tokens.net).as_str(), 12).as_str());
    line.append("  ");
    line.append(pad_right_to(f.language.as_str(), 16).as_str());
    line.append("  ");
    line.append(f.path.as_str());
    proof {
        assert(line@ =~= diff_file_row(*f));
    }
    line
}

/// The file block of a comparison table.
pub fn diff_file_table(d: &DiffResult, field: SortField) -> (out: Vec<String>)
    ensures
        views(out@) == diff_file_lines(*d, field),
{
    let fs = &d.files;
    let ghost fsv = fs@;
    let mut out: Vec<String> = Vec::new();
    if fs.len() == 0 {
        assert(views(out@) =~= diff_file_lines(*d, field));
        return out;
    }
    let mut keys: Vec<RowKey> = Vec::new();
    let mut i: usize = 0;
    while i < fs.len()
        invariant
            fsv == fs@,
            i <= fs.len(),
            keys@ == diff_keys(fsv.take(i as int), field),
        decreases fs.len() - i,
    {
        let f = &fs[i];
        keys.push(
            RowKey {
                weight: f.tokens.added as u128 + f.tokens.removed as u128,
                path: f.path.clone(),
                language: f.language,
                index: i,
                field,
            },
        );
        assert(keys@ =~= diff_keys(fsv.take(i as int + 1), field));
        i += 1;
    }
    assert(fsv.take(fs.len() as int) =~= fsv);
    let ghost key_seq = keys@;
    proof {
        lemma_sorted_indices(key_seq);
    }
    let sorted = stable_sort(keys);
    out.push(String::new());
    out.push("          Net  Language          File".to_owned());
    out.push(repeated('-', 66));
    let ghost head = views(out@);
    proof {
        assert(head =~= seq![Seq::<char>::empty(), "          Net  Language          File"@, repeat_char('-', 66)]);
    }
    let ghost order = diff_order(fsv, field);
    let mut k: usize = 0;
    while k < sorted.len()
        invariant
            fsv == fs@,
            sorted@ == stable_sorted(key_seq),
            key_seq == diff_keys(fsv, field),
            order == diff_order(fsv, field),
            sorted@.len() == fsv.len(),
            forall|j: int| 0 <= j < fsv.len() ==> 0 <= (#[trigger] sorted@[j]).index < fsv.len()
                && sorted@[j] == key_seq[sorted@[j].index as int],
            k <= sorted.len(),
            views(out@) == head + Seq::new(k as nat, |j: int| diff_file_row(fsv[order[j]])),
        decreases sorted.len() - k,
    {
        let idx = sorted[k].index;
        let row = diff_file_row_text(&fs[idx]);
        let ghost before = out@;
        out.push(row);
        proof {
            assert(order[k as int] == idx as int);
            assert(views(out@) =~= views(before).push(row@));
        }
        k += 1;
        proof {
            assert(views(out@) =~= head + Seq::new(k as nat, |j: int| diff_file_row(fsv[order[j]])));
        }
    }
    proof {
        assert(views(out@) =~= diff_file_lines(*d, field));
    }
    out
}

fn diff_language_row_text(l: &LanguageDelta) -> (r: String)
    ensures
        r@ == diff_language_row(*l),
{
    let mut added = "+".to_owned();
    added.append(format_number(l.tokens.added).as_str());
    let mut removed = "-".to_owned();
    removed.append(format_number(l.tokens.removed).as_str());
    let mut line = " ".to_owned();
    line.append(pad_right_to(l.name.as_str(), 26).as_str());
    line.append("  ");
    line.append(pad_left_to(added.as_str(), 11).as_str());
    line.append("  ");
    line.append(pad_left_to(removed.as_str(), 11).as_str());
    line.append("  ");
    line.append(pad_left_to(format_signed(l.tokens.net).as_str(), 12).as_str());
    proof {
        assert(line@ =~= diff_language_row(*l));
    }
    line
}

/// The language block of a comparison table.
pub fn diff_language_table(d: &DiffResult) -> (out: Vec<String>)
    ensures
        views(out@) == diff_language_lines(*d),
{
    let ls = &d.languages;
    let mut out: Vec<String> = Vec::new();
    if ls.len() == 0 {
        assert(views(out@) =~= diff_language_lines(*d));
        return out;
    }
    out.push(String::new());
    out.push(" Language                       Added       Removed           Net".to_owned());
    out.push(repeated('-', 66));
    let ghost head = views(out@);
    proof {
        assert(head =~= seq![
            Seq::<char>::empty(),
            " Language                       Added       Removed           Net"@,
            repeat_char('-', 66),
        ]);
    }
    let mut k: usize = 0;
    while k < ls.len()
        invariant
            k <= ls.len(),
            views(out@) == head + Seq::new(k as nat, |i: int| diff_language_row(ls@[i])),
        decreases ls.len() - k,
    {
        let row = diff_language_row_text(&ls[k]);
        let ghost before = out@;
        out.push(row);
        proof {
            assert(views(out@) =~= views(before).push(row@));
        }
        k += 1;
        proof {
            assert(views(out@) =~= head + Seq::new(k as nat, |i: int| diff_language_row(ls@[i])));
        }
    }
    proof {
        assert(views(out@) =~= diff_language_lines(*d));
    }
    out
}

/// The skip block of one snapshot of a comparison.
pub fn diff_skip_block(name: &str, s: &SkippedSummary) -> (out: Vec<String>)
    ensures
        views(out@) == diff_skip_lines(name@, *s),
{
    let mut out: Vec<String> = Vec::new();
    if s.total == 0 {
        assert(views(out@) =~= diff_skip_lines(name@, *s));
        return out;
    }
    out.push(String::new());
    let mut title = name.to_owned();
    title.append(" snapshot:");
    out.push(title);
    assert(views(out@) =~= seq![Seq::<char>::empty(), name@ + " snapshot:"@]);
    let summary = skip_summary(s);
    append_lines(&mut out, &summary);
    out
}

/// The table of a comparison.
pub fn diff_table(e: &DiffExecution, files: bool, field: SortField) -> (out: Vec<String>)
    ensures
        views(out@) == diff_table_lines(*e, files, field),
{
    let d = &e.result;
    let mut out: Vec<String> = Vec::new();
    let mut title = " Token delta (".to_owned();
    title.append(e.base.as_str());
    title.append(" -> ");
    title.append(e.head.as_str());
    title.append(")");
    out.push(title);
    out.push(repeated('-', 42));
    let mut added = " Added tokens          +".to_owned();
    added.append(format_number(d.tokens.added).as_str());
    out.push(added);
    let mut removed = " Removed tokens        -".to_owned();
    removed.append(format_number(d.tokens.removed).as_str());
    out.push(removed);
    let mut net = " Net                    ".to_owned();
    net.append(format_signed(d.tokens.net).as_str());
    out.push(net);
    assert(views(out@) =~= seq![
        " Token delta ("@ + e.base@ + " -> "@ + e.head@ + ")"@,
        repeat_char('-', 42),
        " Added tokens          +"@ + spec_format_unsigned(d.tokens.added as nat),
        " Removed tokens        -"@ + spec_format_unsigned(d.tokens.removed as nat),
        " Net                    "@ + spec_format_signed(d.tokens.net as int),
    ]);
    let block = if files {
        diff_file_table(d, field)
    } else {
        diff_language_table(d)
    };
    append_lines(&mut out, &block);
    let base = diff_skip_block("Base", &d.base_skipped);
    append_lines(&mut out, &base);
    let head = diff_skip_block("Head", &d.head_skipped);
    append_lines(&mut out, &head);
    proof {
        assert(views(out@) =~= diff_table_lines(*e, files, field));
    }
    out
}

/// What to print for a finished invocation.
#[derive(Debug, PartialEq, Eq)]
pub enum Report {
    /// The machine-readable JSON document.
    Json,
    /// These lines of text.
    Lines(Vec<String>),
}

/// Whether every measured path of a scan can be measured into a column width.
pub open spec fn paths_fit(r: ScanResult) -> bool {
    forall|i: int| 0 <= i < r.files@.len() ==> text_width(#[trigger] r.files@[i].path@) <= usize::MAX - 64
}

/// The human-readable lines for an invocation, or `None` when JSON was asked for.
pub open spec fn report_lines(e: Execution, args: CliArgs) -> Option<Seq<Seq<char>>> {
    if args.format == OutputFormat::Json {
        None
    } else if args.quiet {
        Some(Seq::empty())
    } else {
        match e {
            Execution::Scan(r) => Some(
                if args.files {
                    file_table_lines(r, args.sort)
                } else {
                    language_table_lines(r)
                },
            ),
            Execution::Diff(d) => Some(diff_table_lines(d, args.files, args.sort)),
        }
    }
}

/// What to print for a finished invocation: JSON, nothing when quiet, or the
/// file, language or comparison table.
pub fn report(e: &Execution, args: &CliArgs) -> (r: Report)
    requires
        e matches Execution::Scan(s) ==> paths_fit(*s),
    ensures
        match report_lines(*e, *args) {
            None => r is Json,
            Some(lines) => (r matches Report::Lines(v) && views(v@) == lines),
        },
{
    if args.format == OutputFormat::Json {
        return Report::Json;
    }
    if args.quiet {
        let v: Vec<String> = Vec::new();
        assert(views(v@) =~= Seq::<Seq<char>>::empty());
        return Report::Lines(v);
    }
    match e {
        Execution::Scan(r) => {
            if args.files {
                Report::Lines(file_table(r, args.sort))
            } else {
                Report::Lines(language_table(r))
            }
        },
        Execution::Diff(d) => Report::Lines(diff_table(d, args.files, args.sort)),
    }
}

/// The diagnostic lines for a list of skipped paths.
pub open spec fn skip_detail_lines(snapshot: Option<Seq<char>>, ds: Seq<SkipDetail>) -> Seq<Seq<char>> {
    Seq::new(ds.len(), |i: int| skip_detail_line(snapshot, ds[i]))
}

/// The diagnostic lines listing skipped paths: those of a scan, or those of
/// the base and then the head snapshot of a comparison, tagged as such.
pub open spec fn verbose_skip_lines(e: Execution) -> Seq<Seq<char>> {
    match e {
        Execution::Scan(r) => skip_detail_lines(None, r.skipped.details@),
        Execution::Diff(d) => skip_detail_lines(Some("base"@), d.result.base_skipped.details@)
            + skip_detail_lines(Some("head"@), d.result.head_skipped.details@),
    }
}

fn detail_lines(snapshot: Option<&str>, ds: &Vec<SkipDetail>) -> (out: Vec<String>)
    ensures
        views(out@) == skip_detail_lines(crate::cache::str_view(snapshot), ds@),
{
    let mut out: Vec<String> = Vec::new();
    let mut i: usize = 0;
    while i < ds.len()
        invariant
            i <= ds.len(),
            views(out@) == skip_detail_lines(crate::cache::str_view(snapshot), ds@.take(i as int)),
        decreases ds.len() - i,
    {
        let line = skip_detail_text(snapshot, &ds[i]);
        let ghost before = out@;
        out.push(line);
        proof {
            assert(views(out@) =~= views(before).push(line@));
            assert(views(out@) =~= skip_detail_lines(crate::cache::str_view(snapshot), ds@.take(i as int + 1)));
        }
        i += 1;
    }
    assert(ds@.take(ds.len() as int) =~= ds@);
    out
}

/// The diagnostic lines listing skipped paths.
pub fn verbose_skips(e: &Execution) -> (out: Vec<String>)
    ensures
        views(out@) == verbose_skip_lines(*e),
{
    match e {
        Execution::Scan(r) => detail_lines(None, &r.skipped.details),
        Execution::Diff(d) => {
            let mut out = detail_lines(Some("base"), &d.result.base_skipped.details);
            let head = detail_lines(Some("head"), &d.result.head_skipped.details);
            append_lines(&mut out, &head);
            out
        },
    }
}

} // verus!
