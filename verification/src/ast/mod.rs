//! Symbols of source files and the measures that compare them.
pub mod call_refs;
pub mod language;
pub mod levenshtein;
pub mod normalize;
pub mod parser;
pub mod symbol;
pub mod tree;
pub mod query;

pub use language::is_supported;

use vstd::prelude::*;

use crate::ast::call_refs::{calls_node, extract_call_references, refs_view, CallReference, RefView};
use crate::ast::language::{detect_spec, Language};
use crate::ast::parser::{parse_file_auto, parsed_tree, source_used, ParseError};
use crate::ast::query::{all_in_file, extract_symbols, file_symbols, lemma_file_symbols_in_file};
use crate::ast::symbol::{Symbol, SymbolView};
use crate::diff::matcher::syms_view;

verus! {

/// The symbols of a file's bytes: an error for an unsupported path or a
/// failed parse, else the symbols of its parse.
pub open spec fn symbols_of_bytes(source: Seq<u8>, path: Seq<char>) -> Result<Seq<SymbolView>, ParseError> {
    match detect_spec(path) {
        None => Err(ParseError::UnsupportedFile),
        Some(lang) => {
            let src = source_used(source, path);
            match parsed_tree(src, lang) {
                None => Err(ParseError::ParseFailed),
                Some(t) => Ok(file_symbols(lang, t, src, path)),
            }
        },
    }
}

/// The symbols read from a file's bytes all record that file's path.
pub proof fn lemma_symbols_of_bytes_in_file(source: Seq<u8>, path: Seq<char>)
    ensures
        symbols_of_bytes(source, path) matches Ok(s) ==> all_in_file(s, path),
{
    if let Some(lang) = detect_spec(path) {
        if let Some(t) = parsed_tree(source_used(source, path), lang) {
            lemma_file_symbols_in_file(lang, t, source_used(source, path), path);
        }
    }
}

/// The calls of a file's bytes, as `symbols_of_bytes` gives its symbols.
pub open spec fn calls_of_bytes(source: Seq<u8>, path: Seq<char>) -> Result<Seq<RefView>, ParseError> {
    match detect_spec(path) {
        None => Err(ParseError::UnsupportedFile),
        Some(lang) => {
            let src = source_used(source, path);
            match parsed_tree(src, lang) {
                None => Err(ParseError::ParseFailed),
                Some(t) => Ok(if t.len() > 0 { calls_node(lang, t, src, path, None, 0) } else { Seq::empty() }),
            }
        },
    }
}

/// Parses a file's bytes and extracts its symbols.
pub fn extract_symbols_from_bytes(source: &[u8], path: &str) -> (r: Result<Vec<Symbol>, ParseError>)
    ensures
        match r {
            Ok(v) => symbols_of_bytes(source@, path@) == Ok::<Seq<SymbolView>, ParseError>(syms_view(v@)),
            Err(e) => symbols_of_bytes(source@, path@) == Err::<Seq<SymbolView>, ParseError>(e),
        },
{
    match parse_file_auto(source, path) {
        Ok((t, lang, eff)) => match &eff {
            Some(s) => Ok(extract_symbols(&t, s.as_slice(), path, lang)),
            None => Ok(extract_symbols(&t, source, path, lang)),
        },
        Err(e) => Err(e),
    }
}

/// Parses a file's bytes and extracts the calls its functions make.
pub fn extract_calls_from_bytes(source: &[u8], path: &str) -> (r: Result<Vec<CallReference>, ParseError>)
    ensures
        match r {
            Ok(v) => calls_of_bytes(source@, path@) == Ok::<Seq<RefView>, ParseError>(refs_view(v@)),
            Err(e) => calls_of_bytes(source@, path@) == Err::<Seq<RefView>, ParseError>(e),
        },
{
    match parse_file_auto(source, path) {
        Ok((t, lang, eff)) => match &eff {
            Some(s) => Ok(extract_call_references(&t, s.as_slice(), path, lang)),
            None => Ok(extract_call_references(&t, source, path, lang)),
        },
        Err(e) => Err(e),
    }
}


pub open spec fn contents_view(f: Seq<(String, Vec<u8>)>) -> Seq<(Seq<char>, Seq<u8>)> {
    f.map_values(|e: (String, Vec<u8>)| (e.0@, e.1@))
}

/// The symbols of a file, none when it cannot be parsed.
pub open spec fn ok_symbols(source: Seq<u8>, path: Seq<char>) -> Seq<SymbolView> {
    match symbols_of_bytes(source, path) {
        Ok(s) => s,
        Err(_) => Seq::empty(),
    }
}

/// The calls of a file, none when it cannot be parsed.
pub open spec fn ok_calls(source: Seq<u8>, path: Seq<char>) -> Seq<RefView> {
    match calls_of_bytes(source, path) {
        Ok(c) => c,
        Err(_) => Seq::empty(),
    }
}

/// The symbols of files (path, bytes), file after file; files that cannot
/// be parsed add none.
pub open spec fn contents_symbols(f: Seq<(Seq<char>, Seq<u8>)>) -> Seq<SymbolView>
    decreases f.len(),
{
    if f.len() == 0 {
        Seq::empty()
    } else {
        contents_symbols(f.drop_last()) + ok_symbols(f.last().1, f.last().0)
    }
}

/// The calls of files (path, bytes), file after file; files that cannot be
/// parsed add none.
pub open spec fn contents_calls(f: Seq<(Seq<char>, Seq<u8>)>) -> Seq<RefView>
    decreases f.len(),
{
    if f.len() == 0 {
        Seq::empty()
    } else {
        contents_calls(f.drop_last()) + ok_calls(f.last().1, f.last().0)
    }
}

/// The symbols of files given with their bytes, file after file, leaving
/// out the files that cannot be parsed.
pub fn symbols_of_contents(files: &[(String, Vec<u8>)]) -> (r: Vec<Symbol>)
    ensures
        syms_view(r@) == contents_symbols(contents_view(files@)),
{
    let ghost fv = contents_view(files@);
    let mut out: Vec<Symbol> = Vec::new();
    let mut i: usize = 0;
    proof {
        assert(fv.take(0) =~= Seq::<(Seq<char>, Seq<u8>)>::empty());
        assert(syms_view(out@) =~= Seq::<SymbolView>::empty());
    }
    while i < files.len()
        invariant
            i <= files@.len(),
            fv == contents_view(files@),
            syms_view(out@) == contents_symbols(fv.take(i as int)),
        decreases files.len() - i,
    {
        proof {
            assert(fv.take(i + 1).drop_last() =~= fv.take(i as int));
            assert(fv.take(i + 1).last() == (files@[i as int].0@, files@[i as int].1@));
        }
        let ghost before = syms_view(out@);
        match extract_symbols_from_bytes(files[i].1.as_slice(), files[i].0.as_str()) {
            Ok(mut v) => {
                let ghost added = syms_view(v@);
                out.append(&mut v);
                proof {
                    assert(syms_view(out@) =~= before + added);
                }
            },
            Err(_) => {
                proof {
                    assert(before + Seq::<SymbolView>::empty() =~= before);
                }
            },
        }
        i = i + 1;
    }
    proof {
        assert(fv.take(files@.len() as int) =~= fv);
    }
    out
}

/// The calls of files given with their bytes, file after file, leaving out
/// the files that cannot be parsed.
pub fn calls_of_contents(files: &[(String, Vec<u8>)]) -> (r: Vec<CallReference>)
    ensures
        refs_view(r@) == contents_calls(contents_view(files@)),
{
    let ghost fv = contents_view(files@);
    let mut out: Vec<CallReference> = Vec::new();
    let mut i: usize = 0;
    proof {
        assert(fv.take(0) =~= Seq::<(Seq<char>, Seq<u8>)>::empty());
        assert(refs_view(out@) =~= Seq::<RefView>::empty());
    }
    while i < files.len()
        invariant
            i <= files@.len(),
            fv == contents_view(files@),
            refs_view(out@) == contents_calls(fv.take(i as int)),
        decreases files.len() - i,
    {
        proof {
            assert(fv.take(i + 1).drop_last() =~= fv.take(i as int));
            assert(fv.take(i + 1).last() == (files@[i as int].0@, files@[i as int].1@));
        }
        let ghost before = refs_view(out@);
        match extract_calls_from_bytes(files[i].1.as_slice(), files[i].0.as_str()) {
            Ok(mut v) => {
                let ghost added = refs_view(v@);
                out.append(&mut v);
                proof {
                    assert(refs_view(out@) =~= before + added);
                }
            },
            Err(_) => {
                proof {
                    assert(before + Seq::<RefView>::empty() =~= before);
                }
            },
        }
        i = i + 1;
    }
    proof {
        assert(fv.take(files@.len() as int) =~= fv);
    }
    out
}


/// The paths of supported languages among `paths`, in order.
pub open spec fn supported_only(paths: Seq<Seq<char>>) -> Seq<Seq<char>> {
    paths.filter(|p: Seq<char>| detect_spec(p) is Some)
}

/// Keeps the paths of files in a supported language.
pub fn supported_paths(paths: &[String]) -> (r: Vec<String>)
    ensures
        r@.map_values(|s: String| s@) == supported_only(paths@.map_values(|s: String| s@)),
{
    let ghost pv = paths@.map_values(|s: String| s@);
    let mut out: Vec<String> = Vec::new();
    let mut i: usize = 0;
    proof {
        assert(pv.take(0) =~= Seq::<Seq<char>>::empty());
        assert(out@.map_values(|s: String| s@) =~= Seq::<Seq<char>>::empty());
    }
    while i < paths.len()
        invariant
            i <= paths@.len(),
            pv == paths@.map_values(|s: String| s@),
            out@.map_values(|s: String| s@) == supported_only(pv.take(i as int)),
        decreases paths.len() - i,
    {
        proof {
            assert(pv.take(i + 1).drop_last() =~= pv.take(i as int));
            assert(pv.take(i + 1).last() == paths@[i as int]@);
            reveal(Seq::filter);
        }
        let ghost before = out@.map_values(|s: String| s@);
        if is_supported(paths[i].as_str()) {
            out.push(paths[i].clone());
            proof {
                assert(out@.map_values(|s: String| s@) =~= before.push(paths@[i as int]@));
            }
        } else {
            proof {
                assert(out@.map_values(|s: String| s@) =~= before);
            }
        }
        i = i + 1;
    }
    proof {
        assert(pv.take(paths@.len() as int) =~= pv);
    }
    out
}

} // verus!
