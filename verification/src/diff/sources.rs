//! Where the symbols of each side of a diff come from: the files a git
//! range changed, parsed from their bytes or taken from a stored index.
use vstd::prelude::*;

use crate::ast::language::detect_spec;
use crate::ast::parser::ParseError;
use crate::ast::symbol::{Symbol, SymbolView};
use crate::ast::{contents_view, extract_symbols_from_bytes, is_supported, symbols_of_bytes};
use crate::diff::matcher::{all_comparable, syms_view};
use crate::diff::pipeline::{files_comparable, files_view, FileSymbols, FileView};
use crate::git::{ChangedFile, FileStatus, FileStatusView};
use crate::index::RepoIndex;
use crate::repo::similarity::all_syms_view;
use crate::text::str_eq;

verus! {

pub open spec fn strings_of(v: Seq<String>) -> Seq<Seq<char>> {
    v.map_values(|s: String| s@)
}

/// The path a changed file had before the change.
pub open spec fn old_path_of(f: ChangedFile) -> Seq<char> {
    match f.status@ {
        FileStatusView::Renamed { old_path } => old_path,
        _ => f.path@,
    }
}

/// The old-side paths to load: those of the supported files that were not
/// added, by their path before the change.
pub open spec fn old_loads(c: Seq<ChangedFile>) -> Seq<Seq<char>>
    decreases c.len(),
{
    if c.len() == 0 {
        Seq::empty()
    } else {
        let f = c.last();
        let rest = old_loads(c.drop_last());
        if detect_spec(f.path@) is Some && !(f.status@ is Added) { rest.push(old_path_of(f)) } else { rest }
    }
}

/// The new-side paths to load: those of the supported files that were not
/// deleted.
pub open spec fn new_loads(c: Seq<ChangedFile>) -> Seq<Seq<char>>
    decreases c.len(),
{
    if c.len() == 0 {
        Seq::empty()
    } else {
        let f = c.last();
        let rest = new_loads(c.drop_last());
        if detect_spec(f.path@) is Some && !(f.status@ is Deleted) { rest.push(f.path@) } else { rest }
    }
}

/// The files of each side of a range to load, old side first.
pub fn files_to_load(changed: &[ChangedFile]) -> (r: (Vec<String>, Vec<String>))
    ensures
        strings_of(r.0@) == old_loads(changed@),
        strings_of(r.1@) == new_loads(changed@),
{
    let mut old: Vec<String> = Vec::new();
    let mut new: Vec<String> = Vec::new();
    let mut i: usize = 0;
    proof {
        assert(changed@.take(0) =~= Seq::<ChangedFile>::empty());
        assert(strings_of(old@) =~= Seq::<Seq<char>>::empty());
        assert(strings_of(new@) =~= Seq::<Seq<char>>::empty());
    }
    while i < changed.len()
        invariant
            i <= changed@.len(),
            strings_of(old@) == old_loads(changed@.take(i as int)),
            strings_of(new@) == new_loads(changed@.take(i as int)),
        decreases changed.len() - i,
    {
        proof {
            assert(changed@.take(i + 1).drop_last() =~= changed@.take(i as int));
            assert(changed@.take(i + 1).last() == changed@[i as int]);
        }
        let f = &changed[i];
        let ghost ob = strings_of(old@);
        let ghost nb = strings_of(new@);
        if is_supported(f.path.as_str()) {
            let added = match &f.status {
                FileStatus::Added => true,
                _ => false,
            };
            let deleted = match &f.status {
                FileStatus::Deleted => true,
                _ => false,
            };
            if !added {
                let p = match &f.status {
                    FileStatus::Renamed { old_path } => old_path.clone(),
                    _ => f.path.clone(),
                };
                old.push(p);
                proof {
                    assert(strings_of(old@) =~= ob.push(old_path_of(*f)));
                }
            }
            if !deleted {
                new.push(f.path.clone());
                proof {
                    assert(strings_of(new@) =~= nb.push(f.path@));
                }
            }
        }
        i = i + 1;
    }
    proof {
        assert(changed@.take(changed@.len() as int) =~= changed@);
    }
    (old, new)
}

/// Index of the group of path `p`, or the number of groups.
pub open spec fn group_index(g: Seq<FileView>, p: Seq<char>, k: int) -> int
    decreases g.len() - k,
{
    if k < 0 || k >= g.len() {
        g.len() as int
    } else if g[k].0 == p {
        k
    } else {
        group_index(g, p, k + 1)
    }
}

/// The groups after adding a symbol to the group of its file, which is
/// opened after the others when it has none yet.
pub open spec fn group_add(g: Seq<FileView>, s: SymbolView) -> Seq<FileView> {
    let i = group_index(g, s.file_path, 0);
    if i < g.len() {
        g.update(i, (g[i].0, g[i].1.push(s)))
    } else {
        g.push((s.file_path, seq![s]))
    }
}

/// The index's symbols of the files `files`, grouped by file in the order
/// in which the files first occur among the symbols.
pub open spec fn index_groups(syms: Seq<SymbolView>, files: Seq<Seq<char>>) -> Seq<FileView>
    decreases syms.len(),
{
    if syms.len() == 0 {
        Seq::empty()
    } else {
        let g = index_groups(syms.drop_last(), files);
        if files.contains(syms.last().file_path) { group_add(g, syms.last()) } else { g }
    }
}

fn contains_string(v: &[String], s: &String) -> (r: bool)
    ensures
        r == strings_of(v@).contains(s@),
{
    let mut i: usize = 0;
    while i < v.len()
        invariant
            i <= v@.len(),
            forall|k: int| 0 <= k < i ==> v@[k]@ != s@,
        decreases v.len() - i,
    {
        if str_eq(v[i].as_str(), s.as_str()) {
            proof {
                assert(strings_of(v@)[i as int] == s@);
            }
            return true;
        }
        i = i + 1;
    }
    proof {
        if strings_of(v@).contains(s@) {
            let k = choose|k: int| 0 <= k < strings_of(v@).len() && strings_of(v@)[k] == s@;
            assert(v@[k]@ == s@);
        }
    }
    false
}

fn find_group(g: &Vec<FileSymbols>, p: &String) -> (r: usize)
    ensures
        r as int == group_index(files_view(g@), p@, 0),
{
    let ghost gv = files_view(g@);
    let mut k: usize = 0;
    while k < g.len()
        invariant
            k <= g@.len(),
            gv == files_view(g@),
            group_index(gv, p@, k as int) == group_index(gv, p@, 0),
        decreases g.len() - k,
    {
        assert(gv[k as int].0 == g@[k as int].0@);
        if str_eq(g[k].0.as_str(), p.as_str()) {
            return k;
        }
        k = k + 1;
    }
    k
}

/// The index's symbols of some files, grouped by file, with the list of
/// those files in the same order.
pub fn symbols_from_index(idx: &RepoIndex, files: &[String]) -> (r: (Vec<FileSymbols>, Vec<String>))
    ensures
        files_view(r.0@) == index_groups(all_syms_view(idx.symbols@), strings_of(files@)),
        strings_of(r.1@) == files_view(r.0@).map_values(|e: FileView| e.0),
{
    let ghost sv = all_syms_view(idx.symbols@);
    let ghost fs = strings_of(files@);
    let mut groups: Vec<FileSymbols> = Vec::new();
    let mut i: usize = 0;
    proof {
        assert(sv.take(0) =~= Seq::<SymbolView>::empty());
        assert(files_view(groups@) =~= Seq::<FileView>::empty());
    }
    while i < idx.symbols.len()
        invariant
            i <= idx.symbols@.len(),
            sv == all_syms_view(idx.symbols@),
            fs == strings_of(files@),
            files_view(groups@) == index_groups(sv.take(i as int), fs),
        decreases idx.symbols.len() - i,
    {
        let sym = &idx.symbols[i];
        proof {
            assert(sv.take(i + 1).drop_last() =~= sv.take(i as int));
            assert(sv.take(i + 1).last() == sym@);
        }
        if contains_string(files, &sym.file_path) {
            let ghost before = files_view(groups@);
            let k = find_group(&groups, &sym.file_path);
            if k < groups.len() {
                let ghost og = groups@;
                let mut entry = groups.remove(k);
                assert(entry == og[k as int]);
                let ghost ob = entry.1@;
                let d = sym.duplicate();
                entry.1.push(d);
                let ghost e2 = entry;
                groups.insert(k, entry);
                proof {
                    assert(groups@ =~= og.update(k as int, e2));
                    assert(syms_view(e2.1@) =~= syms_view(ob).push(sym@));
                    assert(before[k as int] == (og[k as int].0@, syms_view(ob)));
                    assert(files_view(groups@) =~= before.update(k as int, (before[k as int].0, before[k as int].1.push(sym@))));
                }
            } else {
                let mut v: Vec<Symbol> = Vec::new();
                v.push(sym.duplicate());
                groups.push((sym.file_path.clone(), v));
                proof {
                    assert(syms_view(v@) =~= seq![sym@]);
                    assert(files_view(groups@) =~= before.push((sym@.file_path, seq![sym@])));
                }
            }
        }
        i = i + 1;
    }
    proof {
        assert(sv.take(idx.symbols@.len() as int) =~= sv);
    }
    let mut list: Vec<String> = Vec::new();
    let mut j: usize = 0;
    while j < groups.len()
        invariant
            j <= groups@.len(),
            strings_of(list@) == files_view(groups@).take(j as int).map_values(|e: FileView| e.0),
        decreases groups.len() - j,
    {
        let ghost before = strings_of(list@);
        list.push(groups[j].0.clone());
        proof {
            assert(files_view(groups@)[j as int].0 == groups@[j as int].0@);
            assert(files_view(groups@).take(j + 1).map_values(|e: FileView| e.0) =~= files_view(groups@).take(j as int).map_values(|e: FileView| e.0).push(files_view(groups@)[j as int].0));
            assert(strings_of(list@) =~= files_view(groups@).take(j + 1).map_values(|e: FileView| e.0));
        }
        j = j + 1;
    }
    proof {
        assert(files_view(groups@).take(groups@.len() as int) =~= files_view(groups@));
    }
    (groups, list)
}

/// The files that parse, with their symbols, in order.
pub open spec fn parsed_files(f: Seq<(Seq<char>, Seq<u8>)>) -> Seq<FileView>
    decreases f.len(),
{
    if f.len() == 0 {
        Seq::empty()
    } else {
        let rest = parsed_files(f.drop_last());
        match symbols_of_bytes(f.last().1, f.last().0) {
            Ok(s) => rest.push((f.last().0, s)),
            Err(_) => rest,
        }
    }
}

/// The files that do not parse, with the reason, in order.
pub open spec fn failed_files(f: Seq<(Seq<char>, Seq<u8>)>) -> Seq<(Seq<char>, ParseError)>
    decreases f.len(),
{
    if f.len() == 0 {
        Seq::empty()
    } else {
        let rest = failed_files(f.drop_last());
        match symbols_of_bytes(f.last().1, f.last().0) {
            Ok(_) => rest,
            Err(e) => rest.push((f.last().0, e)),
        }
    }
}

/// Parses files given with their bytes: the symbols of each file that
/// parses, the list of those files, and the files that do not parse with
/// the reason.
pub fn parse_file_contents(contents: &[(String, Vec<u8>)]) -> (r: (Vec<FileSymbols>, Vec<String>, Vec<(String, ParseError)>))
    ensures
        files_view(r.0@) == parsed_files(contents_view(contents@)),
        strings_of(r.1@) == files_view(r.0@).map_values(|e: FileView| e.0),
        r.2@.map_values(|e: (String, ParseError)| (e.0@, e.1)) == failed_files(contents_view(contents@)),
{
    let ghost cv = contents_view(contents@);
    let mut files: Vec<FileSymbols> = Vec::new();
    let mut list: Vec<String> = Vec::new();
    let mut failed: Vec<(String, ParseError)> = Vec::new();
    let mut i: usize = 0;
    proof {
        assert(cv.take(0) =~= Seq::<(Seq<char>, Seq<u8>)>::empty());
        assert(files_view(files@) =~= Seq::<FileView>::empty());
        assert(strings_of(list@) =~= Seq::<Seq<char>>::empty());
        assert(failed@.map_values(|e: (String, ParseError)| (e.0@, e.1)) =~= Seq::<(Seq<char>, ParseError)>::empty());
    }
    while i < contents.len()
        invariant
            i <= contents@.len(),
            cv == contents_view(contents@),
            files_view(files@) == parsed_files(cv.take(i as int)),
            strings_of(list@) == files_view(files@).map_values(|e: FileView| e.0),
            failed@.map_values(|e: (String, ParseError)| (e.0@, e.1)) == failed_files(cv.take(i as int)),
        decreases contents.len() - i,
    {
        proof {
            assert(cv.take(i + 1).drop_last() =~= cv.take(i as int));
            assert(cv.take(i + 1).last() == (contents@[i as int].0@, contents@[i as int].1@));
        }
        let path = &contents[i].0;
        let ghost fb = files_view(files@);
        let ghost lb = strings_of(list@);
        let ghost eb = failed@.map_values(|e: (String, ParseError)| (e.0@, e.1));
        match extract_symbols_from_bytes(contents[i].1.as_slice(), path.as_str()) {
            Ok(syms) => {
                let ghost sv = syms_view(syms@);
                files.push((path.clone(), syms));
                list.push(path.clone());
                proof {
                    assert(files_view(files@) =~= fb.push((path@, sv)));
                    assert(strings_of(list@) =~= lb.push(path@));
                    assert(files_view(files@).map_values(|e: FileView| e.0) =~= fb.map_values(|e: FileView| e.0).push(path@));
                    assert(failed@.map_values(|e: (String, ParseError)| (e.0@, e.1)) == eb);
                }
            },
            Err(e) => {
                failed.push((path.clone(), e));
                proof {
                    assert(failed@.map_values(|e: (String, ParseError)| (e.0@, e.1)) =~= eb.push((path@, e)));
                }
            },
        }
        i = i + 1;
    }
    proof {
        assert(cv.take(contents@.len() as int) =~= cv);
    }
    (files, list, failed)
}

/// Whether every symbol of every file can take part in a matching.
pub fn files_are_comparable(f: &[FileSymbols]) -> (r: bool)
    ensures
        r == files_comparable(f@),
{
    let mut i: usize = 0;
    while i < f.len()
        invariant
            i <= f@.len(),
            forall|k: int| 0 <= k < i ==> all_comparable((#[trigger] f@[k]).1@),
        decreases f.len() - i,
    {
        let syms = &f[i].1;
        let mut j: usize = 0;
        while j < syms.len()
            invariant
                j <= syms@.len(),
                i < f@.len(),
                syms@ == f@[i as int].1@,
                forall|k: int| 0 <= k < j ==> (#[trigger] syms@[k])@.wf() && syms@[k]@.comparable(),
            decreases syms.len() - j,
        {
            if !syms[j].is_comparable() {
                proof {
                    assert(!(syms@[j as int]@.wf() && syms@[j as int]@.comparable()));
                    assert(!all_comparable(f@[i as int].1@));
                    assert(!files_comparable(f@));
                }
                return false;
            }
            j = j + 1;
        }
        i = i + 1;
    }
    true
}


/// A symbol moved to file `p`.
pub open spec fn in_file(s: SymbolView, p: Seq<char>) -> SymbolView {
    SymbolView { file_path: p, ..s }
}

/// The files that parse, each read under its own path and keyed by a path
/// of its own (its symbols moved to that key), in order.
pub open spec fn parsed_files_as(f: Seq<(Seq<char>, Seq<char>, Seq<u8>)>) -> Seq<FileView>
    decreases f.len(),
{
    if f.len() == 0 {
        Seq::empty()
    } else {
        let rest = parsed_files_as(f.drop_last());
        let (path, key, bytes) = f.last();
        match symbols_of_bytes(bytes, path) {
            Ok(s) => rest.push((key, s.map_values(|x: SymbolView| in_file(x, key)))),
            Err(_) => rest,
        }
    }
}

/// The files that do not parse, by the path they were read under, with
/// the reason, in order.
pub open spec fn failed_files_as(f: Seq<(Seq<char>, Seq<char>, Seq<u8>)>) -> Seq<(Seq<char>, ParseError)>
    decreases f.len(),
{
    if f.len() == 0 {
        Seq::empty()
    } else {
        let rest = failed_files_as(f.drop_last());
        let (path, _, bytes) = f.last();
        match symbols_of_bytes(bytes, path) {
            Ok(_) => rest,
            Err(e) => rest.push((path, e)),
        }
    }
}

pub open spec fn triples_view(f: Seq<(String, String, Vec<u8>)>) -> Seq<(Seq<char>, Seq<char>, Seq<u8>)> {
    f.map_values(|e: (String, String, Vec<u8>)| (e.0@, e.1@, e.2@))
}

fn move_to_file(syms: &Vec<Symbol>, key: &String) -> (r: Vec<Symbol>)
    ensures
        syms_view(r@) == syms_view(syms@).map_values(|x: SymbolView| in_file(x, key@)),
{
    let mut out: Vec<Symbol> = Vec::new();
    let mut i: usize = 0;
    while i < syms.len()
        invariant
            i <= syms@.len(),
            syms_view(out@) == syms_view(syms@).take(i as int).map_values(|x: SymbolView| in_file(x, key@)),
        decreases syms.len() - i,
    {
        let mut s = syms[i].duplicate();
        s.file_path = key.clone();
        let ghost before = syms_view(out@);
        out.push(s);
        proof {
            assert(syms_view(syms@)[i as int] == syms@[i as int]@);
            assert(s@ == in_file(syms@[i as int]@, key@));
            assert(syms_view(out@) =~= before.push(s@));
            assert(syms_view(syms@).take(i + 1).map_values(|x: SymbolView| in_file(x, key@)) =~= syms_view(syms@).take(
                i as int,
            ).map_values(|x: SymbolView| in_file(x, key@)).push(in_file(syms_view(syms@)[i as int], key@)));
        }
        i = i + 1;
    }
    proof {
        assert(syms_view(syms@).take(syms@.len() as int) =~= syms_view(syms@));
    }
    out
}

/// Parses files each given as (path it is read under, path it is listed
/// under, bytes): the symbols of each file that parses, moved to its
/// listed path; the list of those paths; and the files that do not parse,
/// by the path they were read under, with the reason.
pub fn parse_files_as(files: &[(String, String, Vec<u8>)]) -> (r: (Vec<FileSymbols>, Vec<String>, Vec<(String, ParseError)>))
    ensures
        files_view(r.0@) == parsed_files_as(triples_view(files@)),
        strings_of(r.1@) == files_view(r.0@).map_values(|e: FileView| e.0),
        r.2@.map_values(|e: (String, ParseError)| (e.0@, e.1)) == failed_files_as(triples_view(files@)),
{
    let ghost cv = triples_view(files@);
    let mut out: Vec<FileSymbols> = Vec::new();
    let mut list: Vec<String> = Vec::new();
    let mut failed: Vec<(String, ParseError)> = Vec::new();
    let mut i: usize = 0;
    proof {
        assert(cv.take(0) =~= Seq::<(Seq<char>, Seq<char>, Seq<u8>)>::empty());
        assert(files_view(out@) =~= Seq::<FileView>::empty());
        assert(strings_of(list@) =~= Seq::<Seq<char>>::empty());
        assert(failed@.map_values(|e: (String, ParseError)| (e.0@, e.1)) =~= Seq::<(Seq<char>, ParseError)>::empty());
    }
    while i < files.len()
        invariant
            i <= files@.len(),
            cv == triples_view(files@),
            files_view(out@) == parsed_files_as(cv.take(i as int)),
            strings_of(list@) == files_view(out@).map_values(|e: FileView| e.0),
            failed@.map_values(|e: (String, ParseError)| (e.0@, e.1)) == failed_files_as(cv.take(i as int)),
        decreases files.len() - i,
    {
        proof {
            assert(cv.take(i + 1).drop_last() =~= cv.take(i as int));
            assert(cv.take(i + 1).last() == (files@[i as int].0@, files@[i as int].1@, files@[i as int].2@));
        }
        let path = &files[i].0;
        let key = &files[i].1;
        let ghost fb = files_view(out@);
        let ghost lb = strings_of(list@);
        let ghost eb = failed@.map_values(|e: (String, ParseError)| (e.0@, e.1));
        match extract_symbols_from_bytes(files[i].2.as_slice(), path.as_str()) {
            Ok(syms) => {
                let moved = move_to_file(&syms, key);
                let ghost mv = syms_view(moved@);
                out.push((key.clone(), moved));
                list.push(key.clone());
                proof {
                    assert(files_view(out@) =~= fb.push((key@, mv)));
                    assert(strings_of(list@) =~= lb.push(key@));
                    assert(files_view(out@).map_values(|e: FileView| e.0) =~= fb.map_values(|e: FileView| e.0).push(key@));
                    assert(failed@.map_values(|e: (String, ParseError)| (e.0@, e.1)) == eb);
                }
            },
            Err(e) => {
                failed.push((path.clone(), e));
                proof {
                    assert(failed@.map_values(|e: (String, ParseError)| (e.0@, e.1)) =~= eb.push((path@, e)));
                }
            },
        }
        i = i + 1;
    }
    proof {
        assert(cv.take(files@.len() as int) =~= cv);
    }
    (out, list, failed)
}

} // verus!
