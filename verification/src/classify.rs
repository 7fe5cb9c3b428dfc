//! Path-based language classification used for aggregation.

use vstd::prelude::*;
use vstd::utf8::{encode_utf8, is_ascii_chars, is_ascii_chars_encode_utf8};

use crate::chars::{ascii_lowercase, chars_eq_str, chars_of, to_ascii_lowercase};
use crate::path::{extension_of, path_extension};

verus! {

/// Language or text-file family assigned to a measured file.
#[derive(Clone, Copy, Debug, PartialEq, Eq, Structural, PartialOrd, Ord, Hash)]
pub enum Language {
    /// Rust source.
    Rust,
    /// Python source or type stubs.
    Python,
    /// TypeScript source.
    TypeScript,
    /// JavaScript source.
    JavaScript,
    /// Markdown prose.
    Markdown,
    /// JSON or JSON Lines data.
    Json,
    /// YAML data.
    Yaml,
    /// TOML data.
    Toml,
    /// Shell source.
    Shell,
    /// C source or headers.
    C,
    /// C++ source or headers.
    Cpp,
    /// Java source.
    Java,
    /// Go source.
    Go,
    /// Measured text without a recognized family.
    Unknown,
}

/// Number of language families.
pub const LANGUAGE_COUNT: usize = 14;

impl Language {
    /// The stable display and machine-output name.
    pub open spec fn spec_name(self) -> Seq<char> {
        match self {
            Language::Rust => "Rust"@,
            Language::Python => "Python"@,
            Language::TypeScript => "TypeScript"@,
            Language::JavaScript => "JavaScript"@,
            Language::Markdown => "Markdown"@,
            Language::Json => "JSON"@,
            Language::Yaml => "YAML"@,
            Language::Toml => "TOML"@,
            Language::Shell => "Shell"@,
            Language::C => "C"@,
            Language::Cpp => "C++"@,
            Language::Java => "Java"@,
            Language::Go => "Go"@,
            Language::Unknown => "Text / Unknown"@,
        }
    }

    /// Position of this family in the declared order.
    pub open spec fn rank(self) -> int {
        match self {
            Language::Rust => 0,
            Language::Python => 1,
            Language::TypeScript => 2,
            Language::JavaScript => 3,
            Language::Markdown => 4,
            Language::Json => 5,
            Language::Yaml => 6,
            Language::Toml => 7,
            Language::Shell => 8,
            Language::C => 9,
            Language::Cpp => 10,
            Language::Java => 11,
            Language::Go => 12,
            Language::Unknown => 13,
        }
    }

    /// Return the stable display and machine-output name.
    pub fn as_str(self) -> (r: &'static str)
        ensures
            r@ == self.spec_name(),
    {
        match self {
            Language::Rust => "Rust",
            Language::Python => "Python",
            Language::TypeScript => "TypeScript",
            Language::JavaScript => "JavaScript",
            Language::Markdown => "Markdown",
            Language::Json => "JSON",
            Language::Yaml => "YAML",
            Language::Toml => "TOML",
            Language::Shell => "Shell",
            Language::C => "C",
            Language::Cpp => "C++",
            Language::Java => "Java",
            Language::Go => "Go",
            Language::Unknown => "Text / Unknown",
        }
    }

    /// Position of this family in the declared order.
    pub fn index(self) -> (r: usize)
        ensures
            r as int == self.rank(),
            r < LANGUAGE_COUNT,
    {
        match self {
            Language::Rust => 0,
            Language::Python => 1,
            Language::TypeScript => 2,
            Language::JavaScript => 3,
            Language::Markdown => 4,
            Language::Json => 5,
            Language::Yaml => 6,
            Language::Toml => 7,
            Language::Shell => 8,
            Language::C => 9,
            Language::Cpp => 10,
            Language::Java => 11,
            Language::Go => 12,
            Language::Unknown => 13,
        }
    }

    /// The family at a position of the declared order.
    pub open spec fn spec_from_rank(i: int) -> Language {
        if i == 0 { Language::Rust }
        else if i == 1 { Language::Python }
        else if i == 2 { Language::TypeScript }
        else if i == 3 { Language::JavaScript }
        else if i == 4 { Language::Markdown }
        else if i == 5 { Language::Json }
        else if i == 6 { Language::Yaml }
        else if i == 7 { Language::Toml }
        else if i == 8 { Language::Shell }
        else if i == 9 { Language::C }
        else if i == 10 { Language::Cpp }
        else if i == 11 { Language::Java }
        else if i == 12 { Language::Go }
        else { Language::Unknown }
    }

    /// The family at a position of the declared order.
    pub fn from_index(i: usize) -> (r: Language)
        requires
            i < LANGUAGE_COUNT,
        ensures
            r == Language::spec_from_rank(i as int),
            r.rank() == i,
    {
        if i == 0 { Language::Rust }
        else if i == 1 { Language::Python }
        else if i == 2 { Language::TypeScript }
        else if i == 3 { Language::JavaScript }
        else if i == 4 { Language::Markdown }
        else if i == 5 { Language::Json }
        else if i == 6 { Language::Yaml }
        else if i == 7 { Language::Toml }
        else if i == 8 { Language::Shell }
        else if i == 9 { Language::C }
        else if i == 10 { Language::Cpp }
        else if i == 11 { Language::Java }
        else if i == 12 { Language::Go }
        else { Language::Unknown }
    }
}

/// The ranks of language families identify them.
pub proof fn lemma_language_rank_injective(a: Language, b: Language)
    ensures
        a.rank() == b.rank() <==> a == b,
        Language::spec_from_rank(a.rank()) == a,
        0 <= a.rank() < LANGUAGE_COUNT,
{
}

/// Language names are ASCII and at most 14 characters long.
pub proof fn lemma_name_width(l: Language)
    ensures
        is_ascii_chars(l.spec_name()),
        l.spec_name().len() <= 14,
        encode_utf8(l.spec_name()).len() == l.spec_name().len(),
{
    match l {
        Language::Rust => {
            reveal_strlit("Rust");
        },
        Language::Python => {
            reveal_strlit("Python");
        },
        Language::TypeScript => {
            reveal_strlit("TypeScript");
        },
        Language::JavaScript => {
            reveal_strlit("JavaScript");
        },
        Language::Markdown => {
            reveal_strlit("Markdown");
        },
        Language::Json => {
            reveal_strlit("JSON");
        },
        Language::Yaml => {
            reveal_strlit("YAML");
        },
        Language::Toml => {
            reveal_strlit("TOML");
        },
        Language::Shell => {
            reveal_strlit("Shell");
        },
        Language::C => {
            reveal_strlit("C");
        },
        Language::Cpp => {
            reveal_strlit("C++");
        },
        Language::Java => {
            reveal_strlit("Java");
        },
        Language::Go => {
            reveal_strlit("Go");
        },
        Language::Unknown => {
            reveal_strlit("Text / Unknown");
        },
    }
    is_ascii_chars_encode_utf8(l.spec_name());
}

/// The family of a lowercased extension.
pub open spec fn language_for_extension(e: Seq<char>) -> Language {
    if e == "rs"@ {
        Language::Rust
    } else if e == "py"@ || e == "pyi"@ {
        Language::Python
    } else if e == "ts"@ || e == "tsx"@ || e == "mts"@ || e == "cts"@ {
        Language::TypeScript
    } else if e == "js"@ || e == "jsx"@ || e == "mjs"@ || e == "cjs"@ {
        Language::JavaScript
    } else if e == "md"@ || e == "markdown"@ || e == "mdx"@ {
        Language::Markdown
    } else if e == "json"@ || e == "jsonl"@ {
        Language::Json
    } else if e == "yaml"@ || e == "yml"@ {
        Language::Yaml
    } else if e == "toml"@ {
        Language::Toml
    } else if e == "sh"@ || e == "bash"@ || e == "zsh"@ || e == "fish"@ {
        Language::Shell
    } else if e == "c"@ || e == "h"@ {
        Language::C
    } else if e == "cc"@ || e == "cpp"@ || e == "cxx"@ || e == "hh"@ || e == "hpp"@ || e == "hxx"@ {
        Language::Cpp
    } else if e == "java"@ {
        Language::Java
    } else if e == "go"@ {
        Language::Go
    } else {
        Language::Unknown
    }
}

/// The family of a path, from its ASCII-lowercased file-name extension.
pub open spec fn spec_classify(path: Seq<char>) -> Language {
    match path_extension(path) {
        Some(e) => language_for_extension(ascii_lowercase(e)),
        None => Language::Unknown,
    }
}

/// Whether a path's file-name extension, ASCII-lowercased, is `e`.
pub open spec fn extension_is(path: Seq<char>, e: Seq<char>) -> bool {
    path_extension(path) matches Some(x) && ascii_lowercase(x) == e
}

/// Each known extension, in any ASCII case, classifies a path into its family;
/// a path without an extension is of unknown family.
pub proof fn law_known_extensions(path: Seq<char>)
    ensures
        extension_is(path, "rs"@) ==> spec_classify(path) == Language::Rust,
        (extension_is(path, "py"@) || extension_is(path, "pyi"@)) ==> spec_classify(path) == Language::Python,
        (extension_is(path, "ts"@) || extension_is(path, "tsx"@) || extension_is(path, "mts"@) || extension_is(path, "cts"@)) ==> spec_classify(path) == Language::TypeScript,
        (extension_is(path, "js"@) || extension_is(path, "jsx"@) || extension_is(path, "mjs"@) || extension_is(path, "cjs"@)) ==> spec_classify(path) == Language::JavaScript,
        (extension_is(path, "md"@) || extension_is(path, "markdown"@) || extension_is(path, "mdx"@)) ==> spec_classify(path) == Language::Markdown,
        (extension_is(path, "json"@) || extension_is(path, "jsonl"@)) ==> spec_classify(path) == Language::Json,
        (extension_is(path, "yaml"@) || extension_is(path, "yml"@)) ==> spec_classify(path) == Language::Yaml,
        extension_is(path, "toml"@) ==> spec_classify(path) == Language::Toml,
        (extension_is(path, "sh"@) || extension_is(path, "bash"@) || extension_is(path, "zsh"@) || extension_is(path, "fish"@)) ==> spec_classify(path) == Language::Shell,
        (extension_is(path, "c"@) || extension_is(path, "h"@)) ==> spec_classify(path) == Language::C,
        (extension_is(path, "cc"@) || extension_is(path, "cpp"@) || extension_is(path, "cxx"@) || extension_is(path, "hh"@) || extension_is(path, "hpp"@) || extension_is(path, "hxx"@)) ==> spec_classify(path) == Language::Cpp,
        extension_is(path, "java"@) ==> spec_classify(path) == Language::Java,
        extension_is(path, "go"@) ==> spec_classify(path) == Language::Go,
        path_extension(path) is None ==> spec_classify(path) == Language::Unknown,
{
    reveal_strlit("rs");
    reveal_strlit("py");
    reveal_strlit("pyi");
    reveal_strlit("ts");
    reveal_strlit("tsx");
    reveal_strlit("mts");
    reveal_strlit("cts");
    reveal_strlit("js");
    reveal_strlit("jsx");
    reveal_strlit("mjs");
    reveal_strlit("cjs");
    reveal_strlit("md");
    reveal_strlit("markdown");
    reveal_strlit("mdx");
    reveal_strlit("json");
    reveal_strlit("jsonl");
    reveal_strlit("yaml");
    reveal_strlit("yml");
    reveal_strlit("toml");
    reveal_strlit("sh");
    reveal_strlit("bash");
    reveal_strlit("zsh");
    reveal_strlit("fish");
    reveal_strlit("c");
    reveal_strlit("h");
    reveal_strlit("cc");
    reveal_strlit("cpp");
    reveal_strlit("cxx");
    reveal_strlit("hh");
    reveal_strlit("hpp");
    reveal_strlit("hxx");
    reveal_strlit("java");
    reveal_strlit("go");
    assert("rs"@.len() == 2 && "rs"@[0] == 'r' && "rs"@[1] == 's');
    assert("py"@.len() == 2 && "py"@[0] == 'p' && "py"@[1] == 'y');
    assert("pyi"@.len() == 3 && "pyi"@[0] == 'p' && "pyi"@[1] == 'y' && "pyi"@[2] == 'i');
    assert("ts"@.len() == 2 && "ts"@[0] == 't' && "ts"@[1] == 's');
    assert("tsx"@.len() == 3 && "tsx"@[0] == 't' && "tsx"@[1] == 's' && "tsx"@[2] == 'x');
    assert("mts"@.len() == 3 && "mts"@[0] == 'm' && "mts"@[1] == 't' && "mts"@[2] == 's');
    assert("cts"@.len() == 3 && "cts"@[0] == 'c' && "cts"@[1] == 't' && "cts"@[2] == 's');
    assert("js"@.len() == 2 && "js"@[0] == 'j' && "js"@[1] == 's');
    assert("jsx"@.len() == 3 && "jsx"@[0] == 'j' && "jsx"@[1] == 's' && "jsx"@[2] == 'x');
    assert("mjs"@.len() == 3 && "mjs"@[0] == 'm' && "mjs"@[1] == 'j' && "mjs"@[2] == 's');
    assert("cjs"@.len() == 3 && "cjs"@[0] == 'c' && "cjs"@[1] == 'j' && "cjs"@[2] == 's');
    assert("md"@.len() == 2 && "md"@[0] == 'm' && "md"@[1] == 'd');
    assert("markdown"@.len() == 8 && "markdown"@[0] == 'm' && "markdown"@[1] == 'a' && "markdown"@[2] == 'r');
    assert("mdx"@.len() == 3 && "mdx"@[0] == 'm' && "mdx"@[1] == 'd' && "mdx"@[2] == 'x');
    assert("json"@.len() == 4 && "json"@[0] == 'j' && "json"@[1] == 's' && "json"@[2] == 'o');
    assert("jsonl"@.len() == 5 && "jsonl"@[0] == 'j' && "jsonl"@[1] == 's' && "jsonl"@[2] == 'o');
    assert("yaml"@.len() == 4 && "yaml"@[0] == 'y' && "yaml"@[1] == 'a' && "yaml"@[2] == 'm');
    assert("yml"@.len() == 3 && "yml"@[0] == 'y' && "yml"@[1] == 'm' && "yml"@[2] == 'l');
    assert("toml"@.len() == 4 && "toml"@[0] == 't' && "toml"@[1] == 'o' && "toml"@[2] == 'm');
    assert("sh"@.len() == 2 && "sh"@[0] == 's' && "sh"@[1] == 'h');
    assert("bash"@.len() == 4 && "bash"@[0] == 'b' && "bash"@[1] == 'a' && "bash"@[2] == 's');
    assert("zsh"@.len() == 3 && "zsh"@[0] == 'z' && "zsh"@[1] == 's' && "zsh"@[2] == 'h');
    assert("fish"@.len() == 4 && "fish"@[0] == 'f' && "fish"@[1] == 'i' && "fish"@[2] == 's');
    assert("c"@.len() == 1 && "c"@[0] == 'c');
    assert("h"@.len() == 1 && "h"@[0] == 'h');
    assert("cc"@.len() == 2 && "cc"@[0] == 'c' && "cc"@[1] == 'c');
    assert("cpp"@.len() == 3 && "cpp"@[0] == 'c' && "cpp"@[1] == 'p' && "cpp"@[2] == 'p');
    assert("cxx"@.len() == 3 && "cxx"@[0] == 'c' && "cxx"@[1] == 'x' && "cxx"@[2] == 'x');
    assert("hh"@.len() == 2 && "hh"@[0] == 'h' && "hh"@[1] == 'h');
    assert("hpp"@.len() == 3 && "hpp"@[0] == 'h' && "hpp"@[1] == 'p' && "hpp"@[2] == 'p');
    assert("hxx"@.len() == 3 && "hxx"@[0] == 'h' && "hxx"@[1] == 'x' && "hxx"@[2] == 'x');
    assert("java"@.len() == 4 && "java"@[0] == 'j' && "java"@[1] == 'a' && "java"@[2] == 'v');
    assert("go"@.len() == 2 && "go"@[0] == 'g' && "go"@[1] == 'o');
}

fn for_extension(e: &[char]) -> (r: Language)
    ensures
        r == language_for_extension(e@),
{
    if chars_eq_str(e, "rs") {
        Language::Rust
    } else if chars_eq_str(e, "py") || chars_eq_str(e, "pyi") {
        Language::Python
    } else if chars_eq_str(e, "ts") || chars_eq_str(e, "tsx") || chars_eq_str(e, "mts")
        || chars_eq_str(e, "cts") {
        Language::TypeScript
    } else if chars_eq_str(e, "js") || chars_eq_str(e, "jsx") || chars_eq_str(e, "mjs")
        || chars_eq_str(e, "cjs") {
        Language::JavaScript
    } else if chars_eq_str(e, "md") || chars_eq_str(e, "markdown") || chars_eq_str(e, "mdx") {
        Language::Markdown
    } else if chars_eq_str(e, "json") || chars_eq_str(e, "jsonl") {
        Language::Json
    } else if chars_eq_str(e, "yaml") || chars_eq_str(e, "yml") {
        Language::Yaml
    } else if chars_eq_str(e, "toml") {
        Language::Toml
    } else if chars_eq_str(e, "sh") || chars_eq_str(e, "bash") || chars_eq_str(e, "zsh")
        || chars_eq_str(e, "fish") {
        Language::Shell
    } else if chars_eq_str(e, "c") || chars_eq_str(e, "h") {
        Language::C
    } else if chars_eq_str(e, "cc") || chars_eq_str(e, "cpp") || chars_eq_str(e, "cxx")
        || chars_eq_str(e, "hh") || chars_eq_str(e, "hpp") || chars_eq_str(e, "hxx") {
        Language::Cpp
    } else if chars_eq_str(e, "java") {
        Language::Java
    } else if chars_eq_str(e, "go") {
        Language::Go
    } else {
        Language::Unknown
    }
}

/// Classify a file from its basename and extension.
pub fn classify(path: &str) -> (r: Language)
    ensures
        r == spec_classify(path@),
{
    let chars = chars_of(path);
    match extension_of(chars.as_slice()) {
        Some(extension) => {
            let lower = to_ascii_lowercase(extension.as_slice());
            for_extension(lower.as_slice())
        },
        None => Language::Unknown,
    }
}

} // verus!
