//! Source languages and their detection from file paths.
use vstd::prelude::*;

use crate::text::{chars_are, chars_of};
use tree_sitter::Language as Grammar;

verus! {

/// A tree-sitter grammar.
#[verifier::external_type_specification]
#[verifier::external_body]
pub struct ExGrammar(Grammar);

#[derive(Debug, Clone, Copy, PartialEq, Eq, Structural, Hash)]
pub enum Language {
    Rust,
    Go,
    TypeScript,
    Tsx,
    JavaScript,
    Python,
}

/// The path without trailing separators and trailing `.` components, as
/// `Path::components` normalizes them away.
pub open spec fn strip_trailing(p: Seq<char>) -> Seq<char>
    decreases p.len(),
{
    if p.len() >= 2 && p.last() == '/' {
        strip_trailing(p.drop_last())
    } else if p.len() >= 2 && p.last() == '.' && p[p.len() - 2] == '/' {
        strip_trailing(p.drop_last().drop_last())
    } else {
        p
    }
}

/// Index just after the last `/` in `p[..end]`, or 0.
pub open spec fn last_sep_end(p: Seq<char>, end: int) -> int
    decreases end,
{
    if end <= 0 {
        0
    } else if p[end - 1] == '/' {
        end
    } else {
        last_sep_end(p, end - 1)
    }
}

/// The final component of a path (`Path::file_name`): `None` for an empty
/// path, the root, `.` and `..`.
pub open spec fn file_name(p: Seq<char>) -> Option<Seq<char>> {
    let t = strip_trailing(p);
    let name = t.subrange(last_sep_end(t, t.len() as int), t.len() as int);
    if name.len() == 0 || name == seq!['.'] || name == seq!['.', '.'] {
        None
    } else {
        Some(name)
    }
}

/// Index of the last `.` in `s[..end]`, or -1.
pub open spec fn last_dot(s: Seq<char>, end: int) -> int
    decreases end,
{
    if end <= 0 {
        -1
    } else if s[end - 1] == '.' {
        end - 1
    } else {
        last_dot(s, end - 1)
    }
}

/// The extension of a path (`Path::extension`): the text after the last `.`
/// of the file name, unless that dot begins the name.
pub open spec fn extension(p: Seq<char>) -> Option<Seq<char>> {
    match file_name(p) {
        None => None,
        Some(name) => {
            let d = last_dot(name, name.len() as int);
            if d <= 0 {
                None
            } else {
                Some(name.subrange(d + 1, name.len() as int))
            }
        },
    }
}

/// The language of an extension.
pub open spec fn language_of_ext(e: Seq<char>) -> Option<Language> {
    if e == "rs"@ {
        Some(Language::Rust)
    } else if e == "go"@ {
        Some(Language::Go)
    } else if e == "ts"@ {
        Some(Language::TypeScript)
    } else if e == "tsx"@ || e == "svelte"@ {
        Some(Language::Tsx)
    } else if e == "js"@ || e == "mjs"@ || e == "cjs"@ {
        Some(Language::JavaScript)
    } else if e == "py"@ {
        Some(Language::Python)
    } else {
        None
    }
}

/// The language of a path, from its extension.
pub open spec fn detect_spec(p: Seq<char>) -> Option<Language> {
    match extension(p) {
        Some(e) => language_of_ext(e),
        None => None,
    }
}

proof fn lemma_last_sep_end_bounds(p: Seq<char>, end: int)
    requires
        0 <= end <= p.len(),
    ensures
        0 <= last_sep_end(p, end) <= end,
        forall|k: int| last_sep_end(p, end) <= k < end ==> p[k] != '/',
    decreases end,
{
    if end > 0 && p[end - 1] != '/' {
        lemma_last_sep_end_bounds(p, end - 1);
    }
}

proof fn lemma_last_dot_bounds(s: Seq<char>, end: int)
    requires
        0 <= end <= s.len(),
    ensures
        -1 <= last_dot(s, end) < end,
        last_dot(s, end) >= 0 ==> s[last_dot(s, end)] == '.',
        forall|k: int| last_dot(s, end) < k < end ==> s[k] != '.',
    decreases end,
{
    if end > 0 && s[end - 1] != '.' {
        lemma_last_dot_bounds(s, end - 1);
    }
}

/// The extension of `path`, as characters.
pub fn path_extension(path: &str) -> (r: Option<Vec<char>>)
    ensures
        match r {
            Some(v) => extension(path@) == Some(v@),
            None => extension(path@) is None,
        },
{
    let p = chars_of(path);
    assert(p@.take(p@.len() as int) =~= p@);
    // strip trailing separators and `.` components
    let mut end: usize = p.len();
    while (end >= 2 && p[end - 1] == '/') || (end >= 2 && p[end - 1] == '.' && p[end - 2] == '/')
        invariant
            end <= p@.len(),
            strip_trailing(p@) == strip_trailing(p@.take(end as int)),
        decreases end,
    {
        proof {
            let t = p@.take(end as int);
            if end >= 2 && p@[end - 1] == '/' {
                assert(t.drop_last() =~= p@.take(end - 1));
            } else {
                assert(t.drop_last().drop_last() =~= p@.take(end - 2));
            }
        }
        if p[end - 1] == '/' {
            end = end - 1;
        } else {
            end = end - 2;
        }
    }
    let ghost t = p@.take(end as int);
    proof {
        assert(strip_trailing(t) == t);
        assert(strip_trailing(p@) == t);
    }
    // start of the last component
    let mut start: usize = end;
    while start > 0 && p[start - 1] != '/'
        invariant
            start <= end <= p@.len(),
            t == p@.take(end as int),
            last_sep_end(t, end as int) == last_sep_end(t, start as int),
        decreases start,
    {
        start = start - 1;
    }
    proof {
        assert(last_sep_end(t, start as int) == start);
    }
    let mut name: Vec<char> = Vec::new();
    let mut k: usize = start;
    while k < end
        invariant
            start <= k <= end <= p@.len(),
            name@ == p@.subrange(start as int, k as int),
        decreases end - k,
    {
        name.push(p[k]);
        k = k + 1;
        assert(name@ =~= p@.subrange(start as int, k as int));
    }
    proof {
        assert(name@ =~= t.subrange(last_sep_end(t, t.len() as int), t.len() as int));
    }
    if name.len() == 0 || chars_are(name.as_slice(), ".") || chars_are(name.as_slice(), "..") {
        proof {
            reveal_strlit(".");
            reveal_strlit("..");
            assert(".."@ =~= seq!['.', '.']);
            assert("."@ =~= seq!['.']);
            assert(file_name(path@) is None);
        }
        return None;
    }
    proof {
        reveal_strlit(".");
        reveal_strlit("..");
        assert(".."@ =~= seq!['.', '.']);
        assert("."@ =~= seq!['.']);
        assert(file_name(path@) == Some(name@));
    }
    let mut d: usize = name.len();
    while d > 0 && name[d - 1] != '.'
        invariant
            d <= name@.len(),
            last_dot(name@, name@.len() as int) == last_dot(name@, d as int),
        decreases d,
    {
        d = d - 1;
    }
    if d <= 1 {
        return None;
    }
    let mut ext: Vec<char> = Vec::new();
    let mut k: usize = d;
    while k < name.len()
        invariant
            d <= k <= name@.len(),
            ext@ == name@.subrange(d as int, k as int),
        decreases name.len() - k,
    {
        ext.push(name[k]);
        k = k + 1;
        assert(ext@ =~= name@.subrange(d as int, k as int));
    }
    Some(ext)
}

impl Language {
    /// The language of a file, from its extension.
    pub fn detect(path: &str) -> (r: Option<Language>)
        ensures
            r == detect_spec(path@),
    {
        match path_extension(path) {
            None => None,
            Some(e) => {
                let e = e.as_slice();
                if chars_are(e, "rs") {
                    Some(Language::Rust)
                } else if chars_are(e, "go") {
                    Some(Language::Go)
                } else if chars_are(e, "ts") {
                    Some(Language::TypeScript)
                } else if chars_are(e, "tsx") || chars_are(e, "svelte") {
                    Some(Language::Tsx)
                } else if chars_are(e, "js") || chars_are(e, "mjs") || chars_are(e, "cjs") {
                    Some(Language::JavaScript)
                } else if chars_are(e, "py") {
                    Some(Language::Python)
                } else {
                    None
                }
            },
        }
    }

    pub open spec fn name_text(self) -> Seq<char> {
        match self {
            Language::Rust => "Rust"@,
            Language::Go => "Go"@,
            Language::TypeScript => "TypeScript"@,
            Language::Tsx => "TSX"@,
            Language::JavaScript => "JavaScript"@,
            Language::Python => "Python"@,
        }
    }

    /// The display name of the language.
    pub fn name(&self) -> (r: &'static str)
        ensures
            r@ == self.name_text(),
    {
        match self {
            Language::Rust => "Rust",
            Language::Go => "Go",
            Language::TypeScript => "TypeScript",
            Language::Tsx => "TSX",
            Language::JavaScript => "JavaScript",
            Language::Python => "Python",
        }
    }

    /// The tree-sitter grammar of the language, from its grammar crate:
    /// `LANGUAGE` of tree-sitter-rust, -go, -javascript and -python, and
    /// `LANGUAGE_TYPESCRIPT` or `LANGUAGE_TSX` of tree-sitter-typescript.
    /// A grammar is opaque here; nothing is claimed of it.
    #[verifier::external_body]
    pub fn tree_sitter_language(&self) -> Grammar {
        match self {
            Language::Rust => tree_sitter_rust::LANGUAGE.into(),
            Language::Go => tree_sitter_go::LANGUAGE.into(),
            Language::TypeScript => tree_sitter_typescript::LANGUAGE_TYPESCRIPT.into(),
            Language::Tsx => tree_sitter_typescript::LANGUAGE_TSX.into(),
            Language::JavaScript => tree_sitter_javascript::LANGUAGE.into(),
            Language::Python => tree_sitter_python::LANGUAGE.into(),
        }
    }

    /// Whether this language uses C-like syntax: every language but Python.
    pub fn is_c_like(&self) -> (r: bool)
        ensures
            r == (*self != Language::Python),
    {
        match self {
            Language::Python => false,
            _ => true,
        }
    }
}

/// Whether a file is in a supported language.
pub fn is_supported(path: &str) -> (r: bool)
    ensures
        r == (detect_spec(path@) is Some),
{
    match Language::detect(path) {
        Some(_) => true,
        None => false,
    }
}

} // verus!
