//! Preparing source bytes for parsing: `<script>` extraction from Svelte files.
use vstd::prelude::*;

use crate::ast::language::{detect_spec, extension, path_extension, Language};
use crate::ast::tree::{flat_fits, flat_view, tree_fits, tree_from_flat, tree_from_nodes, FlatNode, FlatView, SyntaxTree, TreeView};
use crate::text::{chars_are, 
    chars_of, decode_utf8_bytes, find_first, first_occ, join, join_strings, lemma_first_occ,
    occurs_at, string_from_chars, string_into_bytes,
};

verus! {

pub open spec fn open_tag() -> Seq<char> {
    seq!['<', 's', 'c', 'r', 'i', 'p', 't']
}

pub open spec fn close_tag() -> Seq<char> {
    seq!['<', '/', 's', 'c', 'r', 'i', 'p', 't', '>']
}

pub proof fn lemma_first_occ_found(hay: Seq<char>, needle: Seq<char>, from: int)
    requires
        first_occ(hay, needle, from) is Some,
    ensures
        from <= first_occ(hay, needle, from)->0,
        occurs_at(hay, needle, first_occ(hay, needle, from)->0),
    decreases hay.len() + 1 - from,
{
    if from >= 0 && from <= hay.len() && !occurs_at(hay, needle, from) {
        lemma_first_occ_found(hay, needle, from + 1);
    }
}

/// The contents of the `<script ...>...</script>` blocks of `t` from `from`
/// on; `None` when a block is not closed (no `>` after `<script`, or no
/// `</script>` after it).
pub open spec fn script_blocks(t: Seq<char>, from: int) -> Option<Seq<Seq<char>>>
    decreases t.len() + 1 - from,
{
    if from < 0 || from > t.len() {
        Some(Seq::empty())
    } else {
        match first_occ(t, open_tag(), from) {
            None => Some(Seq::empty()),
            Some(b) => match first_occ(t, seq!['>'], b) {
                None => None,
                Some(g) => match first_occ(t, close_tag(), g + 1) {
                    None => None,
                    Some(e) => {
                        proof {
                            lemma_first_occ_found(t, open_tag(), from);
                            lemma_first_occ_found(t, seq!['>'], b);
                            lemma_first_occ_found(t, close_tag(), g + 1);
                        }
                        match script_blocks(t, e + 9) {
                            None => None,
                            Some(rest) => Some(seq![t.subrange(g + 1, e)] + rest),
                        }
                    },
                },
            },
        }
    }
}

/// The script text of a Svelte file: its `<script>` blocks joined by newlines,
/// as UTF-8; `None` for invalid UTF-8, an unclosed block or no block at all.
pub open spec fn svelte_script(source: Seq<u8>) -> Option<Seq<u8>> {
    if !vstd::utf8::valid_utf8(source) {
        None
    } else {
        match script_blocks(vstd::utf8::decode_utf8(source), 0) {
            None => None,
            Some(blocks) => if blocks.len() == 0 {
                None
            } else {
                Some(vstd::utf8::encode_utf8(join(blocks, seq!['\n'])))
            },
        }
    }
}

/// Extracts the contents of the `<script>` blocks of a `.svelte` file.
pub fn extract_svelte_script(source: &[u8]) -> (r: Option<Vec<u8>>)
    ensures
        match r {
            Some(v) => svelte_script(source@) == Some(v@),
            None => svelte_script(source@) is None,
        },
{
    let text = match decode_utf8_bytes(source) {
        Some(s) => s,
        None => return None,
    };
    let t = chars_of(text.as_str());
    let open = chars_of("<script");
    let gt = chars_of(">");
    let close = chars_of("</script>");
    proof {
        reveal_strlit("<script");
        reveal_strlit(">");
        reveal_strlit("</script>");
        assert(open@ =~= open_tag());
        assert(gt@ =~= seq!['>']);
        assert(close@ =~= close_tag());
    }
    let mut scripts: Vec<String> = Vec::new();
    let mut search_from: usize = 0;
    loop
        invariant
            t@ == vstd::utf8::decode_utf8(source@),
            open@ == open_tag(),
            gt@ == seq!['>'],
            close@ == close_tag(),
            search_from <= t@.len(),
            match script_blocks(t@, 0) {
                None => script_blocks(t@, search_from as int) is None,
                Some(all) => match script_blocks(t@, search_from as int) {
                    None => false,
                    Some(rest) => all == scripts@.map_values(|s: String| s@) + rest,
                },
            },
        ensures
            script_blocks(t@, search_from as int) == Some(Seq::<Seq<char>>::empty()),
            match script_blocks(t@, 0) {
                None => false,
                Some(all) => all == scripts@.map_values(|s: String| s@),
            },
        decreases t@.len() + 1 - search_from,
    {
        let start = match find_first(t.as_slice(), open.as_slice(), search_from) {
            Some(b) => b,
            None => {
                proof {
                    assert(script_blocks(t@, search_from as int) == Some(Seq::<Seq<char>>::empty()));
                    if let Some(all) = script_blocks(t@, 0) {
                        assert(all =~= scripts@.map_values(|s: String| s@));
                    }
                }
                break;
            },
        };
        let tag_end = match find_first(t.as_slice(), gt.as_slice(), start) {
            Some(g) => {
                proof {
                    assert(occurs_at(t@, gt@, g as int));
                    assert(gt@.len() == 1);
                    assert(g + 1 <= t@.len());
                    assert(t@.len() == t.len());
                }
                g + 1
            },
            None => return None,
        };
        let end_tag = match find_first(t.as_slice(), close.as_slice(), tag_end) {
            Some(e) => {
                proof {
                    assert(occurs_at(t@, close@, e as int));
                    assert(close@.len() == 9);
                    assert(e + 9 <= t@.len());
                    assert(t@.len() == t.len());
                }
                e
            },
            None => return None,
        };
        let mut content: Vec<char> = Vec::new();
        let mut k: usize = tag_end;
        while k < end_tag
            invariant
                tag_end <= k <= end_tag,
                end_tag <= t@.len(),
                content@ == t@.subrange(tag_end as int, k as int),
            decreases end_tag - k,
        {
            content.push(t[k]);
            k = k + 1;
            assert(content@ =~= t@.subrange(tag_end as int, k as int));
        }
        let ghost prev = scripts@;
        scripts.push(string_from_chars(content.as_slice()));
        proof {
            lemma_first_occ_found(t@, open_tag(), search_from as int);
            assert(scripts@.map_values(|s: String| s@) =~= prev.map_values(|s: String| s@).push(
                t@.subrange(tag_end as int, end_tag as int),
            ));
        }
        search_from = end_tag + 9;
    }
    if scripts.len() == 0 {
        return None;
    }
    let joined = join_strings(&scripts, "\n");
    proof {
        reveal_strlit("\n");
        assert("\n"@ =~= seq!['\n']);
        assert(scripts@.map_values(|s: String| s@) + Seq::<Seq<char>>::empty() =~= scripts@.map_values(
            |s: String| s@,
        ));
    }
    Some(string_into_bytes(joined))
}


/// Why a file could not be parsed.
#[derive(Debug, Clone, Copy, PartialEq, Eq, Structural)]
pub enum ParseError {
    /// The path's extension names no supported language.
    UnsupportedFile,
    /// The parser gave no tree.
    ParseFailed,
}

/// The nodes of tree-sitter's parse of `source` with the grammar of
/// `language`, in document order.
pub uninterp spec fn parsed_nodes(source: Seq<u8>, language: Language) -> Option<Seq<FlatView>>;

/// `tree_sitter::Parser::parse` of `source` with `language`'s grammar, its
/// nodes listed in document order (`TreeCursor::goto_descendant` over the
/// root's `descendant_count`) with their kind, field name, byte and row
/// spans and depth. `None` when `set_language` refuses the grammar or
/// `parse` returns no tree. The listing is named `parsed_nodes`; nothing
/// else is claimed of it.
#[verifier::external_body]
fn parse_nodes(source: &[u8], language: Language) -> (r: Option<Vec<FlatNode>>)
    ensures
        match r {
            Some(v) => parsed_nodes(source@, language) == Some(flat_view(v@)),
            None => parsed_nodes(source@, language) is None,
        },
{
    let mut parser = tree_sitter::Parser::new();
    parser.set_language(&language.tree_sitter_language()).ok()?;
    let tree = parser.parse(source, None)?;
    let mut cursor = tree.walk();
    let mut nodes = Vec::new();
    for i in 0..tree.root_node().descendant_count() {
        cursor.goto_descendant(i);
        let n = cursor.node();
        let field = cursor.field_name().map(String::from);
        nodes.push(FlatNode { kind: n.kind().to_string(), field, start_byte: n.start_byte(), end_byte: n.end_byte(),
            start_row: n.start_position().row, end_row: n.end_position().row, depth: cursor.depth() as usize });
    }
    Some(nodes)
}

/// The tree of `source` in `language`: its parse, when the parser gives one
/// whose spans lie in the source.
pub open spec fn parsed_tree(source: Seq<u8>, language: Language) -> Option<TreeView> {
    match parsed_nodes(source, language) {
        Some(f) => if flat_fits(f, source.len()) { Some(tree_from_flat(f)) } else { None },
        None => None,
    }
}

/// Parses source code with the grammar of a language.
pub fn parse_file(source: &[u8], language: Language) -> (r: Result<SyntaxTree, ParseError>)
    ensures
        match r {
            Ok(t) => parsed_tree(source@, language) == Some(t@) && tree_fits(t@, source@.len()),
            Err(e) => e == ParseError::ParseFailed && parsed_tree(source@, language) is None,
        },
{
    let nodes = match parse_nodes(source, language) {
        Some(n) => n,
        None => return Err(ParseError::ParseFailed),
    };
    match tree_from_nodes(&nodes, source.len()) {
        Some(t) => Ok(t),
        None => Err(ParseError::ParseFailed),
    }
}

pub open spec fn is_svelte(path: Seq<char>) -> bool {
    extension(path) == Some("svelte"@)
}

/// The script text that stands for a file's source: a Svelte file's
/// `<script>` blocks, when it has any.
pub open spec fn effective_source(source: Seq<u8>, path: Seq<char>) -> Option<Seq<u8>> {
    if is_svelte(path) { svelte_script(source) } else { None }
}

/// The bytes that are parsed for a file.
pub open spec fn source_used(source: Seq<u8>, path: Seq<char>) -> Seq<u8> {
    match effective_source(source, path) {
        Some(s) => s,
        None => source,
    }
}

pub open spec fn opt_bytes(o: Option<Vec<u8>>) -> Option<Seq<u8>> {
    match o {
        Some(v) => Some(v@),
        None => None,
    }
}

fn is_svelte_path(path: &str) -> (r: bool)
    ensures
        r == is_svelte(path@),
{
    proof {
        reveal_strlit("svelte");
    }
    match path_extension(path) {
        Some(e) => chars_are(e.as_slice(), "svelte"),
        None => false,
    }
}

/// Detects a file's language from its path and parses it: a `.svelte`
/// file by its `<script>` blocks, which come back as the third part.
pub fn parse_file_auto(source: &[u8], path: &str) -> (r: Result<(SyntaxTree, Language, Option<Vec<u8>>), ParseError>)
    ensures
        match r {
            Ok((t, lang, eff)) => detect_spec(path@) == Some(lang) && opt_bytes(eff) == effective_source(source@, path@)
                && parsed_tree(source_used(source@, path@), lang) == Some(t@)
                && tree_fits(t@, source_used(source@, path@).len()),
            Err(e) => match detect_spec(path@) {
                None => e == ParseError::UnsupportedFile,
                Some(lang) => e == ParseError::ParseFailed && parsed_tree(source_used(source@, path@), lang) is None,
            },
        },
{
    let language = match Language::detect(path) {
        Some(l) => l,
        None => return Err(ParseError::UnsupportedFile),
    };
    let effective = if is_svelte_path(path) {
        extract_svelte_script(source)
    } else {
        None
    };
    let tree = match &effective {
        Some(s) => parse_file(s.as_slice(), language),
        None => parse_file(source, language),
    };
    match tree {
        Ok(t) => Ok((t, language, effective)),
        Err(e) => Err(e),
    }
}

} // verus!
