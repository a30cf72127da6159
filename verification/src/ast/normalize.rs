//! Comment stripping and white-space normalization of source bodies.
use vstd::prelude::*;

use crate::text::{chars_of, is_whitespace, is_ws, string_from_chars, trim, trim_chars, trim_end, trim_start};

verus! {

/// Where the scanner of `normalize_body` stands.
#[derive(PartialEq, Eq, Structural, Clone, Copy)]
pub enum ScanMode {
    Code,
    LineComment,
    BlockComment,
}

/// The normalized text of `c[i..]`, given the mode at `i` and the output so far:
/// `//` comments end as white space at their newline, `/* */` comments
/// vanish, every run of white space becomes one space (none at the start),
/// all other characters are kept.
pub open spec fn scan(c: Seq<char>, i: int, mode: ScanMode, acc: Seq<char>) -> Seq<char>
    decreases c.len() - i,
{
    if i < 0 || i >= c.len() {
        acc
    } else {
        match mode {
            ScanMode::LineComment => {
                if c[i] == '\n' {
                    if acc.len() > 0 && acc.last() != ' ' {
                        scan(c, i + 1, ScanMode::Code, acc.push(' '))
                    } else {
                        scan(c, i + 1, ScanMode::Code, acc)
                    }
                } else {
                    scan(c, i + 1, ScanMode::LineComment, acc)
                }
            },
            ScanMode::BlockComment => {
                if i + 1 < c.len() && c[i] == '*' && c[i + 1] == '/' {
                    scan(c, i + 2, ScanMode::Code, acc)
                } else {
                    scan(c, i + 1, ScanMode::BlockComment, acc)
                }
            },
            ScanMode::Code => {
                if i + 1 < c.len() && c[i] == '/' && c[i + 1] == '/' {
                    scan(c, i + 2, ScanMode::LineComment, acc)
                } else if i + 1 < c.len() && c[i] == '/' && c[i + 1] == '*' {
                    scan(c, i + 2, ScanMode::BlockComment, acc)
                } else if is_ws(c[i]) {
                    if acc.len() > 0 && acc.last() != ' ' {
                        scan(c, i + 1, ScanMode::Code, acc.push(' '))
                    } else {
                        scan(c, i + 1, ScanMode::Code, acc)
                    }
                } else {
                    scan(c, i + 1, ScanMode::Code, acc.push(c[i]))
                }
            },
        }
    }
}

/// The normalized form of a body: comments stripped, white space collapsed,
/// then trimmed.
pub open spec fn normalized(s: Seq<char>) -> Seq<char> {
    trim(scan(s, 0, ScanMode::Code, Seq::empty()))
}

/// White space only as single spaces: no other white-space character, and
/// no two spaces in a row.
pub open spec fn collapsed(s: Seq<char>) -> bool {
    &&& forall|k: int| 0 <= k < s.len() && is_ws(#[trigger] s[k]) ==> s[k] == ' '
    &&& forall|a: int, b: int|
        0 <= a && a + 1 == b && b < s.len() ==> !(#[trigger] s[a] == ' ' && #[trigger] s[b] == ' ')
}

/// Collapsed, and not starting with white space.
pub open spec fn scan_clean(acc: Seq<char>) -> bool {
    collapsed(acc) && (acc.len() > 0 ==> !is_ws(acc[0]))
}

proof fn lemma_push_space(acc: Seq<char>)
    requires
        scan_clean(acc),
        acc.len() > 0,
        acc.last() != ' ',
    ensures
        scan_clean(acc.push(' ')),
{
    let t = acc.push(' ');
    assert(!is_ws(acc.last()));
    assert forall|a: int, b: int| 0 <= a && a + 1 == b && b < t.len() implies !(#[trigger] t[a] == ' '
        && #[trigger] t[b] == ' ') by {
        if b == acc.len() {
            assert(t[a] == acc.last());
        } else {
            assert(t[a] == acc[a] && t[b] == acc[b]);
        }
    }
    assert forall|k: int| 0 <= k < t.len() && is_ws(#[trigger] t[k]) implies t[k] == ' ' by {
        if k < acc.len() {
            assert(t[k] == acc[k]);
        }
    }
}

proof fn lemma_push_other(acc: Seq<char>, c: char)
    requires
        scan_clean(acc),
        !is_ws(c),
    ensures
        scan_clean(acc.push(c)),
{
    let t = acc.push(c);
    assert forall|a: int, b: int| 0 <= a && a + 1 == b && b < t.len() implies !(#[trigger] t[a] == ' '
        && #[trigger] t[b] == ' ') by {
        if b < acc.len() {
            assert(t[a] == acc[a] && t[b] == acc[b]);
        } else {
            assert(t[b] == c);
        }
    }
    assert forall|k: int| 0 <= k < t.len() && is_ws(#[trigger] t[k]) implies t[k] == ' ' by {
        if k < acc.len() {
            assert(t[k] == acc[k]);
        }
    }
}

proof fn lemma_scan_clean(c: Seq<char>, i: int, mode: ScanMode, acc: Seq<char>)
    requires
        scan_clean(acc),
    ensures
        scan_clean(scan(c, i, mode, acc)),
    decreases c.len() - i,
{
    if 0 <= i < c.len() {
        match mode {
            ScanMode::LineComment => {
                if c[i] == '\n' {
                    if acc.len() > 0 && acc.last() != ' ' {
                        lemma_push_space(acc);
                        lemma_scan_clean(c, i + 1, ScanMode::Code, acc.push(' '));
                    } else {
                        lemma_scan_clean(c, i + 1, ScanMode::Code, acc);
                    }
                } else {
                    lemma_scan_clean(c, i + 1, ScanMode::LineComment, acc);
                }
            },
            ScanMode::BlockComment => {
                if i + 1 < c.len() && c[i] == '*' && c[i + 1] == '/' {
                    lemma_scan_clean(c, i + 2, ScanMode::Code, acc);
                } else {
                    lemma_scan_clean(c, i + 1, ScanMode::BlockComment, acc);
                }
            },
            ScanMode::Code => {
                if i + 1 < c.len() && c[i] == '/' && c[i + 1] == '/' {
                    lemma_scan_clean(c, i + 2, ScanMode::LineComment, acc);
                } else if i + 1 < c.len() && c[i] == '/' && c[i + 1] == '*' {
                    lemma_scan_clean(c, i + 2, ScanMode::BlockComment, acc);
                } else if is_ws(c[i]) {
                    if acc.len() > 0 && acc.last() != ' ' {
                        lemma_push_space(acc);
                        lemma_scan_clean(c, i + 1, ScanMode::Code, acc.push(' '));
                    } else {
                        lemma_scan_clean(c, i + 1, ScanMode::Code, acc);
                    }
                } else {
                    lemma_push_other(acc, c[i]);
                    lemma_scan_clean(c, i + 1, ScanMode::Code, acc.push(c[i]));
                }
            },
        }
    }
}

proof fn lemma_trim_end_prefix(s: Seq<char>)
    ensures
        trim_end(s).len() <= s.len(),
        trim_end(s) == s.subrange(0, trim_end(s).len() as int),
        trim_end(s).len() > 0 ==> !is_ws(trim_end(s).last()),
    decreases s.len(),
{
    if s.len() > 0 && is_ws(s.last()) {
        lemma_trim_end_prefix(s.drop_last());
        assert(trim_end(s) =~= s.subrange(0, trim_end(s).len() as int));
    } else {
        assert(s.subrange(0, s.len() as int) =~= s);
    }
}

/// A normalized body has its white space collapsed: only single spaces,
/// none at either end.
pub proof fn lemma_normalized_collapsed(s: Seq<char>)
    ensures
        collapsed(normalized(s)),
        normalized(s).len() > 0 ==> !is_ws(normalized(s)[0]) && !is_ws(normalized(s).last()),
{
    let a = scan(s, 0, ScanMode::Code, Seq::empty());
    lemma_scan_clean(s, 0, ScanMode::Code, Seq::empty());
    assert(trim_start(a) == a);
    lemma_trim_end_prefix(a);
    let r = trim_end(a);
    assert forall|k: int| 0 <= k < r.len() && is_ws(#[trigger] r[k]) implies r[k] == ' ' by {
        assert(r[k] == a[k]);
    }
    assert forall|x: int, y: int| 0 <= x && x + 1 == y && y < r.len() implies !(#[trigger] r[x] == ' '
        && #[trigger] r[y] == ' ') by {
        assert(r[x] == a[x] && r[y] == a[y]);
    }
    if r.len() > 0 {
        assert(r[0] == a[0]);
    }
}

/// Normalizes a source body for comparison: strips comments and collapses
/// white space.
pub fn normalize_body(source: &str) -> (r: String)
    ensures
        r@ == normalized(source@),
        collapsed(r@),
{
    proof {
        lemma_normalized_collapsed(source@);
    }
    let chars = chars_of(source);
    let len = chars.len();
    let mut result: Vec<char> = Vec::new();
    let mut mode = ScanMode::Code;
    let mut i: usize = 0;
    while i < len
        invariant
            len == chars@.len(),
            chars@ == source@,
            i <= len + 1,
            scan(chars@, i as int, mode, result@) == scan(chars@, 0, ScanMode::Code, Seq::empty()),
        decreases len + 1 - i,
    {
        match mode {
            ScanMode::LineComment => {
                if chars[i] == '\n' {
                    mode = ScanMode::Code;
                    if result.len() > 0 && result[result.len() - 1] != ' ' {
                        result.push(' ');
                    }
                }
                i = i + 1;
            },
            ScanMode::BlockComment => {
                if i + 1 < len && chars[i] == '*' && chars[i + 1] == '/' {
                    mode = ScanMode::Code;
                    i = i + 2;
                } else {
                    i = i + 1;
                }
            },
            ScanMode::Code => {
                if i + 1 < len && chars[i] == '/' && chars[i + 1] == '/' {
                    mode = ScanMode::LineComment;
                    i = i + 2;
                } else if i + 1 < len && chars[i] == '/' && chars[i + 1] == '*' {
                    mode = ScanMode::BlockComment;
                    i = i + 2;
                } else if is_whitespace(chars[i]) {
                    if result.len() > 0 && result[result.len() - 1] != ' ' {
                        result.push(' ');
                    }
                    i = i + 1;
                } else {
                    result.push(chars[i]);
                    i = i + 1;
                }
            },
        }
    }
    let trimmed = trim_chars(result.as_slice());
    string_from_chars(trimmed.as_slice())
}

} // verus!
