//! The persisted repository index: symbols, call references and
//! pre-computed similarity data for one commit.
use vstd::prelude::*;

use crate::ast::call_refs::{refs_view, CallReference};
use crate::ast::{calls_of_contents, contents_calls, contents_symbols, contents_view, symbols_of_contents};
use crate::diff::matcher::syms_view;
use crate::ast::symbol::{Symbol, SymbolView};
use crate::repo::similarity::{
    all_syms_view, compute_shingles_public, entries_view, lemma_entry_shingles_fit, name_stems, shingles_spec, sketch_ok,
    stems_spec, strings_view,
};
use crate::text::{chars_eq, trim, trim_chars, chars_of, decode_utf8_bytes, push_char, push_str, str_eq, trim_end, trim_end_chars, words, split_words};

verus! {

/// Pre-computed shingle data for a symbol, keyed by `file:qualified_name`.
#[derive(Debug)]
pub struct SymbolShingleEntry {
    pub key: String,
    pub shingles: Vec<u64>,
    pub body_hash: [u8; 32],
    pub stems: Vec<String>,
}

pub struct ShingleEntryView {
    pub key: Seq<char>,
    pub shingles: Seq<u64>,
    pub body_hash: Seq<u8>,
    pub stems: Seq<Seq<char>>,
}

impl View for SymbolShingleEntry {
    type V = ShingleEntryView;

    open spec fn view(&self) -> ShingleEntryView {
        ShingleEntryView {
            key: self.key@,
            shingles: self.shingles@,
            body_hash: self.body_hash@,
            stems: self.stems@.map_values(|s: String| s@),
        }
    }
}

/// The repository index of one commit.
#[derive(Debug)]
pub struct RepoIndex {
    pub commit_hash: String,
    pub timestamp: u64,
    pub symbols: Vec<Symbol>,
    pub call_refs: Vec<CallReference>,
    pub file_count: usize,
    pub shingle_cache: Vec<SymbolShingleEntry>,
}

/// The cache entry of a symbol: its `file:qualified_name` key, the
/// 4-character shingles of its normalized body, its body hash and the
/// stems of its name.
pub open spec fn entry_spec(s: SymbolView) -> ShingleEntryView {
    ShingleEntryView {
        key: s.file_path + ":"@ + s.qualified_name,
        shingles: shingles_spec(s.normalized_body, 4),
        body_hash: s.body_hash,
        stems: stems_spec(s.name),
    }
}

impl RepoIndex {
    /// The similarity data of each symbol, in order. The shingle list of a
    /// comparable symbol is small enough for exact Jaccard arithmetic.
    pub fn compute_shingle_cache(symbols: &[Symbol]) -> (r: Vec<SymbolShingleEntry>)
        ensures
            entries_view(r@) == all_syms_view(symbols@).map_values(|s: SymbolView| entry_spec(s)),
            r@.len() == symbols@.len(),
            forall|i: int|
                0 <= i < r@.len() && symbols@[i]@.comparable() ==> sketch_ok((#[trigger] r@[i]).shingles@),
    {
        let ghost sv = all_syms_view(symbols@);
        let mut out: Vec<SymbolShingleEntry> = Vec::new();
        let mut i: usize = 0;
        while i < symbols.len()
            invariant
                i <= symbols@.len(),
                sv == all_syms_view(symbols@),
                entries_view(out@) == sv.take(i as int).map_values(|s: SymbolView| entry_spec(s)),
            decreases symbols.len() - i,
        {
            let sym = &symbols[i];
            assert(sv[i as int] == sym@);
            let mut key = sym.file_path.clone();
            push_str(&mut key, ":");
            push_str(&mut key, sym.qualified_name.as_str());
            let shingles = compute_shingles_public(sym.normalized_body.as_str(), 4);
            let stems = name_stems(sym.name.as_str());
            let e = SymbolShingleEntry { key, shingles, body_hash: sym.body_hash, stems };
            proof {
                assert(e@.stems == strings_view(e.stems@));
                assert(e@ == entry_spec(sym@));
            }
            let ghost before = entries_view(out@);
            out.push(e);
            proof {
                assert(entries_view(out@) =~= before.push(entry_spec(sym@)));
                assert(sv.take(i + 1).map_values(|s: SymbolView| entry_spec(s)) =~= sv.take(
                    i as int,
                ).map_values(|s: SymbolView| entry_spec(s)).push(entry_spec(sym@)));
            }
            i = i + 1;
        }
        proof {
            assert(sv.take(symbols@.len() as int) =~= sv);
            assert forall|i: int|
                0 <= i < out@.len() && symbols@[i]@.comparable() implies sketch_ok((#[trigger] out@[i]).shingles@) by {
                assert(entries_view(out@)[i] == out@[i]@);
                assert(sv[i] == symbols@[i]@);
                lemma_entry_shingles_fit(sv[i]);
            }
        }
        out
    }

    /// The index of a commit from its files given with their bytes: the
    /// symbols and calls of every file that can be parsed, file after file,
    /// and the similarity data of those symbols.
    pub fn from_contents(commit_hash: String, timestamp: u64, file_count: usize, files: &[(String, Vec<u8>)]) -> (r: RepoIndex)
        ensures
            r.commit_hash@ == commit_hash@,
            r.timestamp == timestamp,
            r.file_count == file_count,
            all_syms_view(r.symbols@) == contents_symbols(contents_view(files@)),
            refs_view(r.call_refs@) == contents_calls(contents_view(files@)),
            entries_view(r.shingle_cache@) == all_syms_view(r.symbols@).map_values(|s: SymbolView| entry_spec(s)),
            r.shingle_cache@.len() == r.symbols@.len(),
            forall|i: int|
                0 <= i < r.shingle_cache@.len() && r.symbols@[i]@.comparable() ==> sketch_ok(
                    (#[trigger] r.shingle_cache@[i]).shingles@,
                ),
    {
        let symbols = symbols_of_contents(files);
        let call_refs = calls_of_contents(files);
        let shingle_cache = Self::compute_shingle_cache(symbols.as_slice());
        proof {
            assert(all_syms_view(symbols@) == syms_view(symbols@));
        }
        RepoIndex { commit_hash, timestamp, symbols, call_refs, file_count, shingle_cache }
    }

    /// Whether the index was built for the commit a reference resolves to
    /// (`None` when it does not resolve).
    pub fn is_current_for(&self, resolved_ref: Option<&str>) -> (r: bool)
        ensures
            r == (match resolved_ref {
                Some(h) => h@ == self.commit_hash@,
                None => false,
            }),
    {
        match resolved_ref {
            Some(h) => str_eq(h, self.commit_hash.as_str()),
            None => false,
        }
    }
}

// ------------------------------------------------- batch loading of files

/// The request that asks `git cat-file --batch` for the files at a
/// reference: one `ref:path` line per file.
pub open spec fn batch_request_spec(git_ref: Seq<char>, files: Seq<Seq<char>>) -> Seq<char>
    decreases files.len(),
{
    if files.len() == 0 {
        Seq::empty()
    } else {
        batch_request_spec(git_ref, files.drop_last()) + git_ref + ":"@ + files.last() + "\n"@
    }
}

pub fn batch_request(git_ref: &str, files: &[String]) -> (r: String)
    ensures
        r@ == batch_request_spec(git_ref@, strings_view(files@)),
{
    let ghost fv = strings_view(files@);
    let mut s = String::new();
    let mut i: usize = 0;
    while i < files.len()
        invariant
            i <= files@.len(),
            fv == strings_view(files@),
            s@ == batch_request_spec(git_ref@, fv.take(i as int)),
        decreases files.len() - i,
    {
        proof {
            assert(fv.take(i + 1).drop_last() =~= fv.take(i as int));
            assert(fv.take(i + 1).last() == files@[i as int]@);
        }
        push_str(&mut s, git_ref);
        push_str(&mut s, ":");
        push_str(&mut s, files[i].as_str());
        push_str(&mut s, "\n");
        i = i + 1;
    }
    proof {
        assert(fv.take(files@.len() as int) =~= fv);
    }
    s
}

/// Why the reply of `git cat-file --batch` could not be read.
#[derive(Debug, Clone, Copy, PartialEq, Eq, Structural)]
pub enum BatchError {
    /// A header line is not UTF-8.
    InvalidHeader,
    /// The reply ends inside a file's content.
    Truncated,
}

/// The position after the line that starts at `pos`: after its `\n`, or
/// the end of the reply.
pub open spec fn line_end(b: Seq<u8>, pos: int) -> int
    decreases b.len() - pos,
{
    if pos < 0 || pos >= b.len() {
        b.len() as int
    } else if b[pos] == 10u8 {
        pos + 1
    } else {
        line_end(b, pos + 1)
    }
}

pub open spec fn ends_with(s: Seq<char>, suffix: Seq<char>) -> bool {
    s.len() >= suffix.len() && s.subrange(s.len() - suffix.len(), s.len() as int) == suffix
}

pub open spec fn is_digit(c: char) -> bool {
    '0' <= c && c <= '9'
}

pub open spec fn digits_value(s: Seq<char>) -> int
    decreases s.len(),
{
    if s.len() == 0 {
        0
    } else {
        digits_value(s.drop_last()) * 10 + (s.last() as int - '0' as int)
    }
}

/// The digits of a number, without a leading `+`.
pub open spec fn unsigned_digits(s: Seq<char>) -> Seq<char> {
    if s.len() > 0 && s[0] == '+' {
        s.drop_first()
    } else {
        s
    }
}

pub open spec fn all_digits(d: Seq<char>) -> bool {
    forall|i: int| 0 <= i < d.len() ==> is_digit(#[trigger] d[i])
}

/// A decimal `usize` as `str::parse` reads it: an optional `+`, then one
/// or more digits, at most `usize::MAX`.
pub open spec fn parse_usize_spec(s: Seq<char>) -> Option<usize> {
    let d = unsigned_digits(s);
    if d.len() > 0 && all_digits(d) && digits_value(d) <= usize::MAX {
        Some(digits_value(d) as usize)
    } else {
        None
    }
}

proof fn lemma_digits_grow(s: Seq<char>, k: int)
    requires
        0 <= k <= s.len(),
        forall|i: int| 0 <= i < s.len() ==> is_digit(#[trigger] s[i]),
    ensures
        0 <= digits_value(s.take(k)) <= digits_value(s),
    decreases s.len() - k,
{
    if k < s.len() {
        lemma_digits_grow(s, k + 1);
        assert(s.take(k + 1).drop_last() =~= s.take(k));
        assert(is_digit(s[k]));
    } else {
        assert(s.take(k) =~= s);
        lemma_digits_nonneg(s);
    }
}

proof fn lemma_digits_nonneg(s: Seq<char>)
    requires
        forall|i: int| 0 <= i < s.len() ==> is_digit(#[trigger] s[i]),
    ensures
        digits_value(s) >= 0,
    decreases s.len(),
{
    if s.len() > 0 {
        assert(is_digit(s.last()));
        lemma_digits_nonneg(s.drop_last());
    }
}

/// `str::parse::<usize>`.
pub fn parse_usize(s: &[char]) -> (r: Option<usize>)
    ensures
        r == parse_usize_spec(s@),
{
    let start: usize = if s.len() > 0 && s[0] == '+' {
        1
    } else {
        0
    };
    let ghost d = unsigned_digits(s@);
    assert(d =~= s@.skip(start as int));
    if start >= s.len() {
        return None;
    }
    let mut value: usize = 0;
    let mut i: usize = start;
    proof {
        assert(d.take(0) =~= Seq::<char>::empty());
    }
    while i < s.len()
        invariant
            start <= i <= s@.len(),
            d =~= s@.skip(start as int),
            d == unsigned_digits(s@),
            d.len() > 0,
            forall|k: int| 0 <= k < i - start ==> is_digit(#[trigger] d[k]),
            value == digits_value(d.take(i - start)),
        decreases s.len() - i,
    {
        let c = s[i];
        assert(d[i - start] == c);
        if !('0' <= c && c <= '9') {
            assert(!is_digit(d[i - start]));
            assert(!all_digits(d));
            assert(parse_usize_spec(s@) is None);
            return None;
        }
        let digit: usize = (c as u32 - '0' as u32) as usize;
        proof {
            assert(d.take(i - start + 1).drop_last() =~= d.take(i - start));
        }
        let next = match value.checked_mul(10) {
            Some(v) => v.checked_add(digit),
            None => None,
        };
        match next {
            Some(v) => {
                value = v;
            },
            None => {
                proof {
                    // the value of the remaining digits only grows
                    assert(digits_value(d.take(i - start + 1)) == value * 10 + digit);
                    assert(value * 10 + digit > usize::MAX);
                    if all_digits(d) {
                        lemma_digits_grow(d, i - start + 1);
                    }
                    assert(parse_usize_spec(s@) is None);
                }
                return None;
            },
        }
        i = i + 1;
    }
    proof {
        assert(d.take(d.len() as int) =~= d);
    }
    Some(value)
}

/// The files of a `git cat-file --batch` reply, read from position `pos`
/// for the files from `idx` on: a header line per file (the file skipped
/// when the header says `missing`, has fewer than three fields, or a size
/// that does not parse), then the content of the given size and one byte
/// that ends it. Reading stops at the end of the reply.
pub open spec fn batch_spec(b: Seq<u8>, files: Seq<Seq<char>>, pos: int, idx: int) -> Result<
    Seq<(Seq<char>, Seq<u8>)>,
    BatchError,
>
    decreases files.len() - idx,
{
    if idx < 0 || idx >= files.len() || pos < 0 || pos >= b.len() {
        Ok(Seq::empty())
    } else {
        let e = line_end(b, pos);
        let raw = b.subrange(pos, e);
        if !vstd::utf8::valid_utf8(raw) {
            Err(BatchError::InvalidHeader)
        } else {
            let header = trim_end(vstd::utf8::decode_utf8(raw));
            let parts = words(header);
            if ends_with(header, "missing"@) || parts.len() < 3 {
                batch_spec(b, files, e, idx + 1)
            } else {
                match parse_usize_spec(parts[2]) {
                    None => batch_spec(b, files, e, idx + 1),
                    Some(size) => if e + size > b.len() {
                        Err(BatchError::Truncated)
                    } else {
                        let after = if e + size < b.len() {
                            e + size + 1
                        } else {
                            e + size
                        };
                        match batch_spec(b, files, after, idx + 1) {
                            Ok(rest) => Ok(seq![(files[idx], b.subrange(e, e + size))] + rest),
                            Err(x) => Err(x),
                        }
                    },
                }
            }
        }
    }
}

pub open spec fn loaded_view(v: Seq<(String, Vec<u8>)>) -> Seq<(Seq<char>, Seq<u8>)> {
    v.map_values(|x: (String, Vec<u8>)| (x.0@, x.1@))
}

fn find_line_end(b: &[u8], pos: usize) -> (r: usize)
    requires
        pos <= b@.len(),
    ensures
        r == line_end(b@, pos as int),
        pos <= r <= b@.len(),
{
    let mut i = pos;
    while i < b.len() && b[i] != 10u8
        invariant
            pos <= i <= b@.len(),
            line_end(b@, pos as int) == line_end(b@, i as int),
        decreases b.len() - i,
    {
        i = i + 1;
    }
    if i < b.len() {
        i + 1
    } else {
        i
    }
}

fn copy_bytes(b: &[u8], from: usize, to: usize) -> (r: Vec<u8>)
    requires
        from <= to <= b@.len(),
    ensures
        r@ == b@.subrange(from as int, to as int),
{
    let mut out: Vec<u8> = Vec::new();
    let mut i = from;
    while i < to
        invariant
            from <= i <= to,
            to <= b@.len(),
            out@ == b@.subrange(from as int, i as int),
        decreases to - i,
    {
        out.push(b[i]);
        i = i + 1;
        assert(out@ =~= b@.subrange(from as int, i as int));
    }
    out
}

fn header_ends_missing(h: &Vec<char>) -> (r: bool)
    ensures
        r == ends_with(h@, "missing"@),
{
    let suffix = chars_of("missing");
    proof {
        reveal_strlit("missing");
    }
    if h.len() < suffix.len() {
        return false;
    }
    let start = h.len() - suffix.len();
    let mut k: usize = 0;
    while k < suffix.len()
        invariant
            k <= suffix@.len(),
            suffix@ == "missing"@,
            suffix@.len() <= h@.len(),
            h@.len() <= usize::MAX,
            start == h@.len() - suffix@.len(),
            forall|j: int| 0 <= j < k ==> h@[start + j] == suffix@[j],
        decreases suffix.len() - k,
    {
        assert(start + k < h@.len());
        let j: usize = start + k;
        if h[j] != suffix[k] {
            assert(h@.subrange(start as int, h@.len() as int)[k as int] != suffix@[k as int]);
            assert(h@.subrange(start as int, h@.len() as int) != "missing"@);
            return false;
        }
        k = k + 1;
    }
    assert(h@.subrange(start as int, h@.len() as int) =~= suffix@);
    true
}

/// Reads the reply of `git cat-file --batch` to the request for `files`:
/// each file present at the reference with its content, in order.
pub fn batch_load_files(output: &[u8], files: &[String]) -> (r: Result<Vec<(String, Vec<u8>)>, BatchError>)
    ensures
        match r {
            Ok(v) => batch_spec(output@, strings_view(files@), 0, 0) == Ok::<Seq<(Seq<char>, Seq<u8>)>, BatchError>(loaded_view(v@)),
            Err(e) => batch_spec(output@, strings_view(files@), 0, 0) == Err::<Seq<(Seq<char>, Seq<u8>)>, BatchError>(e),
        },
{
    let ghost b = output@;
    let ghost fv = strings_view(files@);
    let mut results: Vec<(String, Vec<u8>)> = Vec::new();
    let mut pos: usize = 0;
    let mut idx: usize = 0;
    proof {
        assert(loaded_view(results@) =~= Seq::<(Seq<char>, Seq<u8>)>::empty());
        assert(batch_spec(b, fv, 0, 0) == match batch_spec(b, fv, 0, 0) {
            Ok(rest) => Ok(loaded_view(results@) + rest),
            Err(x) => Err(x),
        }) by {
            match batch_spec(b, fv, 0, 0) {
                Ok(rest) => {
                    assert(loaded_view(results@) + rest =~= rest);
                },
                Err(x) => {},
            }
        }
    }
    while idx < files.len() && pos < output.len()
        invariant
            pos <= output@.len(),
            idx <= files@.len(),
            b == output@,
            fv == strings_view(files@),
            batch_spec(b, fv, 0, 0) == match batch_spec(b, fv, pos as int, idx as int) {
                Ok(rest) => Ok(loaded_view(results@) + rest),
                Err(x) => Err(x),
            },
        decreases files.len() - idx,
    {
        let e = find_line_end(output, pos);
        let raw = copy_bytes(output, pos, e);
        let decoded = match decode_utf8_bytes(raw.as_slice()) {
            Some(s) => s,
            None => {
                return Err(BatchError::InvalidHeader);
            },
        };
        let dc = chars_of(decoded.as_str());
        let header = trim_end_chars(dc.as_slice());
        let parts = split_words(header.as_slice());
        let ghost pv = parts@.map_values(|w: Vec<char>| w@);
        let skip = header_ends_missing(&header) || parts.len() < 3;
        if skip {
            idx = idx + 1;
            pos = e;
            continue;
        }
        assert(pv[2] == parts@[2]@);
        let size = match parse_usize(parts[2].as_slice()) {
            Some(s) => s,
            None => {
                idx = idx + 1;
                pos = e;
                continue;
            },
        };
        if size > output.len() - e {
            return Err(BatchError::Truncated);
        }
        let content = copy_bytes(output, e, e + size);
        let after = if e + size < output.len() {
            e + size + 1
        } else {
            e + size
        };
        let ghost before = loaded_view(results@);
        let name = files[idx].clone();
        let ghost item = (fv[idx as int], b.subrange(e as int, (e + size) as int));
        assert(name@ == fv[idx as int]);
        results.push((name, content));
        proof {
            assert(loaded_view(results@) =~= before.push(item));
            match batch_spec(b, fv, after as int, idx + 1) {
                Ok(rest) => {
                    assert(before + (seq![item] + rest) =~= before.push(item) + rest);
                },
                Err(x) => {},
            }
        }
        idx = idx + 1;
        pos = after;
    }
    proof {
        assert(batch_spec(b, fv, pos as int, idx as int) == Ok::<Seq<(Seq<char>, Seq<u8>)>, BatchError>(Seq::empty()));
        assert(loaded_view(results@) + Seq::<(Seq<char>, Seq<u8>)>::empty() =~= loaded_view(results@));
    }
    Ok(results)
}


// ------------------------------------------------------- the ignore file

/// Whether a line of `s` from the one starting at `start` on (`k` being
/// the position reached in it), trimmed, is `p`.
pub open spec fn has_line_from(s: Seq<char>, p: Seq<char>, start: int, k: int) -> bool
    decreases s.len() - k,
{
    if k < start || start < 0 {
        false
    } else if k >= s.len() {
        trim(s.subrange(start, s.len() as int)) == p
    } else if s[k] == '\n' {
        trim(s.subrange(start, k)) == p || has_line_from(s, p, k + 1, k + 1)
    } else {
        has_line_from(s, p, start, k + 1)
    }
}

/// The `.gitignore` text after making it ignore `.semdiff/`: `None` when a
/// line already says so; a new file holds that line alone; otherwise the
/// line is appended, after a newline unless the text ends with one.
pub open spec fn gitignore_update(current: Option<Seq<char>>) -> Option<Seq<char>> {
    match current {
        None => Some(".semdiff/\n"@),
        Some(c) => if has_line_from(c, ".semdiff/"@, 0, 0) {
            None
        } else if c.len() > 0 && c.last() == '\n' {
            Some(c + ".semdiff/\n"@)
        } else {
            Some(c + "\n.semdiff/\n"@)
        },
    }
}

fn trimmed_is(c: &Vec<char>, from: usize, to: usize, p: &Vec<char>) -> (r: bool)
    requires
        from <= to <= c@.len(),
    ensures
        r == (trim(c@.subrange(from as int, to as int)) == p@),
{
    let mut part: Vec<char> = Vec::new();
    let mut k: usize = from;
    while k < to
        invariant
            from <= k <= to <= c@.len(),
            part@ == c@.subrange(from as int, k as int),
        decreases to - k,
    {
        part.push(c[k]);
        k = k + 1;
        assert(part@ =~= c@.subrange(from as int, k as int));
    }
    let t = trim_chars(part.as_slice());
    chars_eq(t.as_slice(), p.as_slice())
}

/// The `.gitignore` text that makes git ignore the index directory, from
/// the current text (`None` when there is no file); `None` when it
/// already does.
pub fn gitignore_with_index(current: Option<&str>) -> (r: Option<String>)
    ensures
        match r {
            Some(t) => gitignore_update(match current { Some(c) => Some(c@), None => None }) == Some(t@),
            None => gitignore_update(match current { Some(c) => Some(c@), None => None }) is None,
        },
{
    proof {
        reveal_strlit(".semdiff/\n");
        reveal_strlit("\n.semdiff/\n");
        reveal_strlit(".semdiff/");
    }
    let content = match current {
        None => return Some(String::from_str(".semdiff/\n")),
        Some(c) => c,
    };
    let c = chars_of(content);
    let p = chars_of(".semdiff/");
    let mut start: usize = 0;
    let mut k: usize = 0;
    while k < c.len()
        invariant
            start <= k <= c@.len(),
            c@ == content@,
            current == Some(content),
            p@ == ".semdiff/"@,
            has_line_from(c@, p@, start as int, k as int) == has_line_from(c@, p@, 0, 0),
        decreases c@.len() - k,
    {
        if c[k] == '\n' {
            if trimmed_is(&c, start, k, &p) {
                proof {
                    assert(has_line_from(c@, p@, start as int, k as int));
                    assert(has_line_from(content@, ".semdiff/"@, 0, 0));
                    assert(current == Some(content));
                }
                return None;
            }
            proof {
                assert(has_line_from(c@, p@, start as int, k as int) == has_line_from(c@, p@, k + 1, k + 1));
            }
            start = k + 1;
        } else {
            proof {
                assert(has_line_from(c@, p@, start as int, k as int) == has_line_from(c@, p@, start as int, k + 1));
            }
        }
        k = k + 1;
    }
    if trimmed_is(&c, start, c.len(), &p) {
        proof {
            assert(has_line_from(c@, p@, start as int, k as int));
        }
        return None;
    }
    proof {
        assert(!has_line_from(c@, p@, start as int, k as int));
    }
    let mut out = String::from_str(content);
    if c.len() > 0 && c[c.len() - 1] == '\n' {
        push_str(&mut out, ".semdiff/\n");
    } else {
        push_str(&mut out, "\n.semdiff/\n");
    }
    Some(out)
}

} // verus!
