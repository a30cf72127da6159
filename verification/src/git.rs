//! Git ranges and the parsing of `git diff --name-status` output.
use vstd::prelude::*;

use crate::text::{chars_of, contains_seq, find_first, first_occ, lemma_first_occ, occurs_at, string_from_chars};

verus! {

/// Two refs to compare.
#[derive(Debug, Clone)]
pub struct GitRange {
    pub old_ref: String,
    pub new_ref: String,
}

/// How a file changed between two refs.
#[derive(Debug, Clone, PartialEq, Eq)]
pub enum FileStatus {
    Added,
    Modified,
    Deleted,
    Renamed { old_path: String },
}

pub enum FileStatusView {
    Added,
    Modified,
    Deleted,
    Renamed { old_path: Seq<char> },
}

impl View for FileStatus {
    type V = FileStatusView;

    open spec fn view(&self) -> FileStatusView {
        match self {
            FileStatus::Added => FileStatusView::Added,
            FileStatus::Modified => FileStatusView::Modified,
            FileStatus::Deleted => FileStatusView::Deleted,
            FileStatus::Renamed { old_path } => FileStatusView::Renamed { old_path: old_path@ },
        }
    }
}

/// A file that changed between two refs.
#[derive(Debug, Clone)]
pub struct ChangedFile {
    pub path: String,
    pub status: FileStatus,
}

/// The refs a range spec names: `old..new` splits at the first `..`; a
/// single ref is compared with `HEAD`.
pub open spec fn git_range_spec(spec: Seq<char>) -> (Seq<char>, Seq<char>) {
    match first_occ(spec, ".."@, 0) {
        Some(i) => (spec.take(i), spec.skip(i + 2)),
        None => (spec, "HEAD"@),
    }
}

/// Parses a range spec like `main..feature`, or a single ref to compare
/// with `HEAD` (as `git diff <ref>` does).
pub fn parse_git_range(spec: &str) -> (r: GitRange)
    ensures
        (r.old_ref@, r.new_ref@) == git_range_spec(spec@),
{
    let c = chars_of(spec);
    let sep = chars_of("..");
    proof {
        reveal_strlit("..");
        assert(sep@.len() == 2);
    }
    let found = find_first(c.as_slice(), sep.as_slice(), 0);
    match found {
        Some(i) => {
            assert(occurs_at(c@, sep@, i as int));
            assert(i + 2 <= c@.len());
            let old_ref = string_from_chars(&c.as_slice()[0..i]);
            let n = c.len();
            assert(n == c@.len());
            let start: usize = i + 2;
            let new_ref = string_from_chars(&c.as_slice()[start..n]);
            proof {
                assert(c@.subrange(0, i as int) =~= spec@.take(i as int));
                assert(c@.subrange(i + 2, c@.len() as int) =~= spec@.skip(i + 2));
            }
            GitRange { old_ref, new_ref }
        },
        None => GitRange { old_ref: String::from_str(spec), new_ref: String::from_str("HEAD") },
    }
}

/// Joining two refs with `..` and parsing the result gives the two refs
/// back, when the first has no `..` and does not end in `.`; a ref without
/// `..` is compared with `HEAD`.
pub proof fn lemma_git_range_round_trip(old: Seq<char>, new: Seq<char>)
    requires
        !contains_seq(old + "."@, ".."@),
    ensures
        git_range_spec(old + ".."@ + new) == (old, new),
        git_range_spec(old) == (old, "HEAD"@),
{
    let sep = ".."@;
    let dot = "."@;
    let joined = old + sep + new;
    reveal_strlit("..");
    reveal_strlit(".");
    assert(sep.len() == 2);
    assert(joined.subrange(old.len() as int, old.len() as int + 2) =~= sep);
    assert(occurs_at(joined, sep, old.len() as int));
    assert forall|q: int| 0 <= q < old.len() implies !occurs_at(joined, sep, q) by {
        if occurs_at(joined, sep, q) {
            assert((old + dot).subrange(q, q + 2) =~= joined.subrange(q, q + 2));
            assert(occurs_at(old + dot, sep, q));
        }
    }
    lemma_first_occ(joined, sep, 0, Some(old.len() as int));
    assert(joined.take(old.len() as int) =~= old);
    assert(joined.skip(old.len() as int + 2) =~= new);
    assert forall|q: int| 0 <= q implies !occurs_at(old, sep, q) by {
        if occurs_at(old, sep, q) {
            assert((old + dot).subrange(q, q + 2) =~= old.subrange(q, q + 2));
            assert(occurs_at(old + dot, sep, q));
        }
    }
    lemma_first_occ(old, sep, 0, None);
}

/// The lines of a text as `str::lines` gives them: split at `\n`, each
/// without a final `\r` before the `\n`, no empty line after a final `\n`.
pub open spec fn lines_from(s: Seq<char>, i: int, cur: Seq<char>, acc: Seq<Seq<char>>) -> Seq<Seq<char>>
    decreases s.len() - i,
{
    if i < 0 || i >= s.len() {
        if cur.len() > 0 {
            acc.push(cur)
        } else {
            acc
        }
    } else if s[i] == '\n' {
        let line = if cur.len() > 0 && cur.last() == '\r' {
            cur.drop_last()
        } else {
            cur
        };
        lines_from(s, i + 1, Seq::empty(), acc.push(line))
    } else {
        lines_from(s, i + 1, cur.push(s[i]), acc)
    }
}

pub open spec fn text_lines(s: Seq<char>) -> Seq<Seq<char>> {
    lines_from(s, 0, Seq::empty(), Seq::empty())
}

/// The pieces of a line between tabs (`str::split('\t')`).
pub open spec fn tab_fields_from(s: Seq<char>, i: int, cur: Seq<char>, acc: Seq<Seq<char>>) -> Seq<Seq<char>>
    decreases s.len() - i,
{
    if i < 0 || i >= s.len() {
        acc.push(cur)
    } else if s[i] == '\t' {
        tab_fields_from(s, i + 1, Seq::empty(), acc.push(cur))
    } else {
        tab_fields_from(s, i + 1, cur.push(s[i]), acc)
    }
}

pub open spec fn tab_fields(s: Seq<char>) -> Seq<Seq<char>> {
    tab_fields_from(s, 0, Seq::empty(), Seq::empty())
}

/// A changed file as plain values.
pub type ChangedFileView = (Seq<char>, FileStatusView);

/// What one line of `--name-status` output says: `R…` with two paths is a
/// rename, `A`, `M`, `D` with a path an addition, modification, deletion;
/// anything else says nothing.
pub open spec fn name_status_entry(line: Seq<char>) -> Option<ChangedFileView> {
    let f = tab_fields(line);
    if f.len() < 2 {
        None
    } else if f[0].len() > 0 && f[0][0] == 'R' {
        if f.len() >= 3 {
            Some((f[2], FileStatusView::Renamed { old_path: f[1] }))
        } else {
            None
        }
    } else if f[0] == "A"@ {
        Some((f[1], FileStatusView::Added))
    } else if f[0] == "M"@ {
        Some((f[1], FileStatusView::Modified))
    } else if f[0] == "D"@ {
        Some((f[1], FileStatusView::Deleted))
    } else {
        None
    }
}

pub open spec fn name_status_entries(lines: Seq<Seq<char>>) -> Seq<ChangedFileView>
    decreases lines.len(),
{
    if lines.len() == 0 {
        Seq::empty()
    } else {
        let r = name_status_entries(lines.drop_last());
        match name_status_entry(lines.last()) {
            Some(e) => r.push(e),
            None => r,
        }
    }
}

pub open spec fn changed_view(v: Seq<ChangedFile>) -> Seq<ChangedFileView> {
    v.map_values(|c: ChangedFile| (c.path@, c.status@))
}

pub open spec fn char_lines(v: Seq<Vec<char>>) -> Seq<Seq<char>> {
    v.map_values(|x: Vec<char>| x@)
}

pub(crate) fn split_lines(c: &Vec<char>) -> (r: Vec<Vec<char>>)
    ensures
        char_lines(r@) == text_lines(c@),
{
    let mut out: Vec<Vec<char>> = Vec::new();
    let mut cur: Vec<char> = Vec::new();
    proof {
        assert(char_lines(out@) =~= Seq::<Seq<char>>::empty());
        assert(cur@ =~= Seq::<char>::empty());
    }
    let mut i: usize = 0;
    while i < c.len()
        invariant
            i <= c@.len(),
            lines_from(c@, i as int, cur@, char_lines(out@)) == text_lines(c@),
        decreases c.len() - i,
    {
        if c[i] == '\n' {
            let ghost before = char_lines(out@);
            let ghost cv = cur@;
            let mut line = cur;
            if line.len() > 0 && line[line.len() - 1] == '\r' {
                line.pop();
                proof {
                    assert(line@ =~= cv.drop_last());
                }
            }
            let ghost lv = line@;
            out.push(line);
            cur = Vec::new();
            proof {
                assert(char_lines(out@) =~= before.push(lv));
                assert(cur@ =~= Seq::<char>::empty());
            }
        } else {
            cur.push(c[i]);
        }
        i = i + 1;
    }
    if cur.len() > 0 {
        let ghost before = char_lines(out@);
        let ghost cv = cur@;
        out.push(cur);
        proof {
            assert(char_lines(out@) =~= before.push(cv));
        }
    }
    out
}

fn split_tabs(c: &Vec<char>) -> (r: Vec<Vec<char>>)
    ensures
        char_lines(r@) == tab_fields(c@),
{
    let mut out: Vec<Vec<char>> = Vec::new();
    let mut cur: Vec<char> = Vec::new();
    proof {
        assert(char_lines(out@) =~= Seq::<Seq<char>>::empty());
        assert(cur@ =~= Seq::<char>::empty());
    }
    let mut i: usize = 0;
    while i < c.len()
        invariant
            i <= c@.len(),
            tab_fields_from(c@, i as int, cur@, char_lines(out@)) == tab_fields(c@),
        decreases c.len() - i,
    {
        if c[i] == '\t' {
            let ghost before = char_lines(out@);
            let ghost cv = cur@;
            out.push(cur);
            cur = Vec::new();
            proof {
                assert(char_lines(out@) =~= before.push(cv));
                assert(cur@ =~= Seq::<char>::empty());
            }
        } else {
            cur.push(c[i]);
        }
        i = i + 1;
    }
    let ghost before = char_lines(out@);
    let ghost cv = cur@;
    out.push(cur);
    proof {
        assert(char_lines(out@) =~= before.push(cv));
    }
    out
}

fn parse_entry(line: &Vec<char>) -> (r: Option<ChangedFile>)
    ensures
        match r {
            Some(c) => name_status_entry(line@) == Some((c.path@, c.status@)),
            None => name_status_entry(line@) is None,
        },
{
    let f = split_tabs(line);
    let ghost fv = char_lines(f@);
    if f.len() < 2 {
        return None;
    }
    assert(fv[0] == f@[0]@ && fv[1] == f@[1]@);
    if f[0].len() > 0 && f[0][0] == 'R' {
        if f.len() >= 3 {
            assert(fv[2] == f@[2]@);
            let path = string_from_chars(f[2].as_slice());
            let old_path = string_from_chars(f[1].as_slice());
            return Some(ChangedFile { path, status: FileStatus::Renamed { old_path } });
        } else {
            return None;
        }
    }
    let status = if crate::text::chars_are(f[0].as_slice(), "A") {
        FileStatus::Added
    } else if crate::text::chars_are(f[0].as_slice(), "M") {
        FileStatus::Modified
    } else if crate::text::chars_are(f[0].as_slice(), "D") {
        FileStatus::Deleted
    } else {
        return None;
    };
    Some(ChangedFile { path: string_from_chars(f[1].as_slice()), status })
}

/// The changed files that `git diff --name-status` output lists.
pub fn parse_name_status(output: &str) -> (r: Vec<ChangedFile>)
    ensures
        changed_view(r@) == name_status_entries(text_lines(output@)),
{
    let c = chars_of(output);
    let lines = split_lines(&c);
    let ghost lv = char_lines(lines@);
    let mut out: Vec<ChangedFile> = Vec::new();
    let mut i: usize = 0;
    while i < lines.len()
        invariant
            i <= lines@.len(),
            lv == char_lines(lines@),
            lv == text_lines(output@),
            changed_view(out@) == name_status_entries(lv.take(i as int)),
        decreases lines.len() - i,
    {
        let ghost before = changed_view(out@);
        proof {
            assert(lv.take(i + 1).drop_last() =~= lv.take(i as int));
            assert(lv.take(i + 1).last() == lines@[i as int]@);
        }
        match parse_entry(&lines[i]) {
            Some(e) => {
                let ghost ev = (e.path@, e.status@);
                out.push(e);
                proof {
                    assert(changed_view(out@) =~= before.push(ev));
                }
            },
            None => {},
        }
        i = i + 1;
    }
    proof {
        assert(lv.take(lines@.len() as int) =~= lv);
    }
    out
}

} // verus!
