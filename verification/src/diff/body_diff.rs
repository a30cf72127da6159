//! Structured body diffs: line diffs with delete/insert lines paired by
//! similarity and word-level highlights inside paired lines.
use vstd::prelude::*;

use crate::rank::{all_wf, sort_by_score_desc, sort_desc};
use crate::ratio::Ratio;
use crate::text::{
    chars_of, contains_word, is_whitespace, is_ws, push_str, split_words, string_from_chars, words,
    words_from,
};

verus! {

#[derive(Debug, Clone, Copy, PartialEq, Eq, Structural)]
pub enum DiffLineTag {
    Delete,
    Insert,
    Equal,
}

/// A span within a diff line, with highlight info.
#[derive(Debug, Clone)]
pub struct DiffSpan {
    pub text: String,
    /// Whether this span is a changed portion of the line.
    pub highlighted: bool,
}

impl View for DiffSpan {
    type V = (Seq<char>, bool);

    open spec fn view(&self) -> (Seq<char>, bool) {
        (self.text@, self.highlighted)
    }
}

/// A single line of a diff.
#[derive(Debug, Clone)]
pub struct DiffLine {
    pub tag: DiffLineTag,
    pub spans: Vec<DiffSpan>,
}

pub struct LineView {
    pub tag: DiffLineTag,
    pub spans: Seq<(Seq<char>, bool)>,
}

impl View for DiffLine {
    type V = LineView;

    open spec fn view(&self) -> LineView {
        LineView { tag: self.tag, spans: self.spans@.map_values(|s: DiffSpan| s@) }
    }
}

impl DiffLine {
    /// The line's text: its spans concatenated.
    pub fn text(&self) -> (r: String)
        ensures
            r@ == spans_text(self@.spans),
    {
        let mut out = String::new();
        let mut j: usize = 0;
        while j < self.spans.len()
            invariant
                j <= self.spans.len(),
                out@ == spans_text(self@.spans.take(j as int)),
            decreases self.spans.len() - j,
        {
            push_str(&mut out, self.spans[j].text.as_str());
            proof {
                assert(self@.spans.take(j + 1).drop_last() =~= self@.spans.take(j as int));
            }
            j = j + 1;
        }
        proof {
            assert(self@.spans.take(self.spans.len() as int) =~= self@.spans);
        }
        out
    }
}

/// A structured body diff.
#[derive(Debug, Clone)]
pub struct BodyDiff {
    pub lines: Vec<DiffLine>,
}

impl View for BodyDiff {
    type V = Seq<LineView>;

    open spec fn view(&self) -> Seq<LineView> {
        self.lines@.map_values(|l: DiffLine| l@)
    }
}

pub open spec fn changes_view(c: Seq<(DiffLineTag, String)>) -> Seq<(DiffLineTag, Seq<char>)> {
    c.map_values(|x: (DiffLineTag, String)| (x.0, x.1@))
}

/// The line-level diff that `similar::TextDiff::from_lines` computes for two
/// texts: each line (with its line terminator) tagged equal, deleted or inserted.
pub uninterp spec fn line_changes(old: Seq<char>, new: Seq<char>) -> Seq<(DiffLineTag, Seq<char>)>;

/// The word-level diff that `similar::TextDiff::from_words` computes for two
/// lines: each word or white-space run tagged equal, deleted or inserted.
pub uninterp spec fn word_changes(old: Seq<char>, new: Seq<char>) -> Seq<(DiffLineTag, Seq<char>)>;

/// Line diff of two texts, by `similar::TextDiff::from_lines` with its
/// default configuration (Myers, no deadline). The result is named
/// `line_changes`; nothing else is claimed of it.
#[verifier::external_body]
pub(crate) fn diff_lines(old: &str, new: &str) -> (r: Vec<(DiffLineTag, String)>)
    ensures
        changes_view(r@) == line_changes(old@, new@),
{
    let d = similar::TextDiff::from_lines(old, new);
    d.iter_all_changes().map(|c| {
        let t = match c.tag() {
            similar::ChangeTag::Equal => DiffLineTag::Equal,
            similar::ChangeTag::Delete => DiffLineTag::Delete,
            similar::ChangeTag::Insert => DiffLineTag::Insert,
        };
        (t, c.value().to_string())
    }).collect()
}

/// Word diff of two lines, by `similar::TextDiff::from_words` with its
/// default configuration. The result is named `word_changes`; nothing else
/// is claimed of it.
#[verifier::external_body]
fn diff_words(old: &str, new: &str) -> (r: Vec<(DiffLineTag, String)>)
    ensures
        changes_view(r@) == word_changes(old@, new@),
{
    let d = similar::TextDiff::from_words(old, new);
    d.iter_all_changes().map(|c| {
        let t = match c.tag() {
            similar::ChangeTag::Equal => DiffLineTag::Equal,
            similar::ChangeTag::Delete => DiffLineTag::Delete,
            similar::ChangeTag::Insert => DiffLineTag::Insert,
        };
        (t, c.value().to_string())
    }).collect()
}

// ---------------------------------------------------------------- plain text

pub open spec fn tag_prefix(t: DiffLineTag) -> Seq<char> {
    match t {
        DiffLineTag::Delete => "-"@,
        DiffLineTag::Insert => "+"@,
        DiffLineTag::Equal => " "@,
    }
}

/// The concatenated span texts of a line.
pub open spec fn spans_text(spans: Seq<(Seq<char>, bool)>) -> Seq<char>
    decreases spans.len(),
{
    if spans.len() == 0 {
        Seq::empty()
    } else {
        spans_text(spans.drop_last()) + spans.last().0
    }
}

/// Plain rendering: each line is its tag prefix (`-`, `+`, ` `) and its
/// text, followed by a newline unless the output already ends in one.
pub open spec fn plain_text(lines: Seq<LineView>) -> Seq<char>
    decreases lines.len(),
{
    if lines.len() == 0 {
        Seq::empty()
    } else {
        let r = plain_text(lines.drop_last()) + tag_prefix(lines.last().tag) + spans_text(
            lines.last().spans,
        );
        if r.len() > 0 && r.last() == '\n' {
            r
        } else {
            r.push('\n')
        }
    }
}

impl BodyDiff {
    /// Renders the diff as plain text.
    pub fn to_plain_text(&self) -> (r: String)
        ensures
            r@ == plain_text(self@),
    {
        let mut result = String::new();
        let mut i: usize = 0;
        while i < self.lines.len()
            invariant
                i <= self.lines.len(),
                result@ == plain_text(self@.take(i as int)),
            decreases self.lines.len() - i,
        {
            let line = &self.lines[i];
            let prefix = match line.tag {
                DiffLineTag::Delete => "-",
                DiffLineTag::Insert => "+",
                DiffLineTag::Equal => " ",
            };
            let ghost before = result@;
            push_str(&mut result, prefix);
            let mut j: usize = 0;
            while j < line.spans.len()
                invariant
                    j <= line.spans.len(),
                    result@ == before + tag_prefix(line.tag) + spans_text(
                        line@.spans.take(j as int),
                    ),
                decreases line.spans.len() - j,
            {
                push_str(&mut result, line.spans[j].text.as_str());
                proof {
                    assert(line@.spans.take(j + 1).drop_last() =~= line@.spans.take(j as int));
                }
                j = j + 1;
            }
            proof {
                assert(line@.spans.take(line.spans.len() as int) =~= line@.spans);
            }
            let chars = chars_of(result.as_str());
            if !(chars.len() > 0 && chars[chars.len() - 1] == '\n') {
                crate::text::push_char(&mut result, '\n');
            }
            proof {
                assert(self@.take(i + 1).drop_last() =~= self@.take(i as int));
                assert(self@.take(i + 1).last() == line@);
            }
            i = i + 1;
        }
        proof {
            assert(self@.take(self.lines.len() as int) =~= self@);
        }
        result
    }
}

// ---------------------------------------------------------- formatting only

/// The text without its white space.
pub open spec fn strip_ws(s: Seq<char>) -> Seq<char> {
    s.filter(|c: char| !is_ws(c))
}

fn strip_ws_chars(s: &[char]) -> (r: Vec<char>)
    ensures
        r@ == strip_ws(s@),
{
    let mut out: Vec<char> = Vec::new();
    let mut i: usize = 0;
    while i < s.len()
        invariant
            i <= s.len(),
            out@ == strip_ws(s@.take(i as int)),
        decreases s.len() - i,
    {
        proof {
            assert(s@.take(i + 1).drop_last() =~= s@.take(i as int));
            reveal_with_fuel(Seq::filter, 1);
        }
        if !is_whitespace(s[i]) {
            out.push(s[i]);
        }
        i = i + 1;
    }
    proof {
        assert(s@.take(s.len() as int) =~= s@);
    }
    out
}

/// Whether only white space differs between two texts.
pub fn is_formatting_only(old: &str, new: &str) -> (r: bool)
    ensures
        r == (strip_ws(old@) == strip_ws(new@)),
{
    let a = chars_of(old);
    let b = chars_of(new);
    let sa = strip_ws_chars(a.as_slice());
    let sb = strip_ws_chars(b.as_slice());
    crate::text::chars_eq(sa.as_slice(), sb.as_slice())
}

// ------------------------------------------------------------ line pairing

/// Share of common words: words of `a` that also occur in `b`, over the
/// larger word count; two lines without words are identical, one without
/// words shares nothing.
pub open spec fn line_similarity_spec(a: Seq<char>, b: Seq<char>) -> Ratio {
    let wa = words(a);
    let wb = words(b);
    if wa.len() == 0 && wb.len() == 0 {
        Ratio { num: 1, den: 1 }
    } else if wa.len() == 0 || wb.len() == 0 {
        Ratio { num: 0, den: 1 }
    } else {
        Ratio {
            num: wa.filter(|w: Seq<char>| wb.contains(w)).len() as u64,
            den: if wa.len() >= wb.len() { wa.len() as u64 } else { wb.len() as u64 },
        }
    }
}

fn line_similarity(a: &[char], b: &[char]) -> (r: Ratio)
    ensures
        r == line_similarity_spec(a@, b@),
        r.wf(),
        r.num <= r.den,
{
    let wa = split_words(a);
    let wb = split_words(b);
    proof {
        lemma_words_len(a@);
        lemma_words_len(b@);
    }
    if wa.len() == 0 && wb.len() == 0 {
        return Ratio::one();
    }
    if wa.len() == 0 || wb.len() == 0 {
        return Ratio::zero();
    }
    let ghost va = wa@.map_values(|w: Vec<char>| w@);
    let ghost vb = wb@.map_values(|w: Vec<char>| w@);
    let mut common: usize = 0;
    let mut i: usize = 0;
    while i < wa.len()
        invariant
            i <= wa.len(),
            va == wa@.map_values(|w: Vec<char>| w@),
            vb == wb@.map_values(|w: Vec<char>| w@),
            common == va.take(i as int).filter(|w: Seq<char>| vb.contains(w)).len(),
            common <= i,
        decreases wa.len() - i,
    {
        proof {
            assert(va.take(i + 1).drop_last() =~= va.take(i as int));
            reveal_with_fuel(Seq::filter, 1);
        }
        if contains_word(&wb, &wa[i]) {
            common = common + 1;
        }
        i = i + 1;
    }
    proof {
        assert(va.take(wa.len() as int) =~= va);
    }
    let total = if wa.len() >= wb.len() { wa.len() } else { wb.len() };
    Ratio { num: common as u64, den: total as u64 }
}

proof fn lemma_words_from_len(s: Seq<char>, i: int, cur: Seq<char>, acc: Seq<Seq<char>>)
    requires
        0 <= i <= s.len(),
    ensures
        words_from(s, i, cur, acc).len() <= acc.len() + (if cur.len() > 0 { 1int } else { 0 }) + (
        s.len() - i),
    decreases s.len() - i,
{
    if i < s.len() {
        if is_ws(s[i]) {
            lemma_words_from_len(
                s,
                i + 1,
                Seq::empty(),
                if cur.len() > 0 { acc.push(cur) } else { acc },
            );
        } else {
            lemma_words_from_len(s, i + 1, cur.push(s[i]), acc);
        }
    }
}

proof fn lemma_words_len(s: Seq<char>)
    ensures
        words(s).len() <= s.len(),
{
    lemma_words_from_len(s, 0, Seq::empty(), Seq::empty());
}

/// Candidate pairs `(d, i)` of row `d` with insert lines `0..k` whose
/// similarity exceeds 0.3, in order.
pub open spec fn row_candidates(dels: Seq<Seq<char>>, inss: Seq<Seq<char>>, d: int, k: int) -> Seq<
    (Ratio, (usize, usize)),
>
    decreases k,
{
    if k <= 0 {
        Seq::empty()
    } else {
        let prev = row_candidates(dels, inss, d, k - 1);
        let sim = line_similarity_spec(dels[d], inss[k - 1]);
        if sim.above(3, 10) {
            prev.push((sim, (d as usize, (k - 1) as usize)))
        } else {
            prev
        }
    }
}

/// All candidate pairs of delete lines `0..d`, row by row.
pub open spec fn candidates(dels: Seq<Seq<char>>, inss: Seq<Seq<char>>, d: int) -> Seq<
    (Ratio, (usize, usize)),
>
    decreases d,
{
    if d <= 0 {
        Seq::empty()
    } else {
        candidates(dels, inss, d - 1) + row_candidates(dels, inss, d - 1, inss.len() as int)
    }
}

pub open spec fn uses_del(pairs: Seq<(usize, usize)>, d: usize) -> bool {
    exists|k: int| 0 <= k < pairs.len() && pairs[k].0 == d
}

pub open spec fn uses_ins(pairs: Seq<(usize, usize)>, i: usize) -> bool {
    exists|k: int| 0 <= k < pairs.len() && pairs[k].1 == i
}

/// Greedy assignment: each candidate, best first, is kept when neither of
/// its lines is taken yet.
pub open spec fn greedy_pairs(sorted: Seq<(Ratio, (usize, usize))>) -> Seq<(usize, usize)>
    decreases sorted.len(),
{
    if sorted.len() == 0 {
        Seq::empty()
    } else {
        let g = greedy_pairs(sorted.drop_last());
        let p = sorted.last().1;
        if !uses_del(g, p.0) && !uses_ins(g, p.1) {
            g.push(p)
        } else {
            g
        }
    }
}

/// Delete/insert line pairs, most similar first.
pub open spec fn pairing(dels: Seq<Seq<char>>, inss: Seq<Seq<char>>) -> Seq<(usize, usize)> {
    if dels.len() == 0 || inss.len() == 0 {
        Seq::empty()
    } else {
        greedy_pairs(sort_desc(candidates(dels, inss, dels.len() as int)))
    }
}

pub open spec fn lines_view(v: Seq<Vec<char>>) -> Seq<Seq<char>> {
    v.map_values(|l: Vec<char>| l@)
}

/// Pairs delete lines with insert lines by similarity (greedy best match).
fn pair_by_similarity(dels: &Vec<Vec<char>>, inss: &Vec<Vec<char>>) -> (r: Vec<(usize, usize)>)
    ensures
        r@ == pairing(lines_view(dels@), lines_view(inss@)),
        forall|k: int|
            0 <= k < r@.len() ==> (#[trigger] r@[k]).0 < dels@.len() && r@[k].1 < inss@.len(),
{
    let ghost dv = lines_view(dels@);
    let ghost iv = lines_view(inss@);
    if dels.len() == 0 || inss.len() == 0 {
        return Vec::new();
    }
    let mut scores: Vec<(Ratio, (usize, usize))> = Vec::new();
    let mut di: usize = 0;
    while di < dels.len()
        invariant
            di <= dels.len(),
            dv == lines_view(dels@),
            iv == lines_view(inss@),
            scores@ == candidates(dv, iv, di as int),
            all_wf(scores@),
            forall|k: int|
                0 <= k < scores@.len() ==> (#[trigger] scores@[k]).1.0 < dels@.len()
                    && scores@[k].1.1 < inss@.len(),
        decreases dels.len() - di,
    {
        let ghost base = scores@;
        let mut ii: usize = 0;
        while ii < inss.len()
            invariant
                di < dels.len(),
                ii <= inss.len(),
                dv == lines_view(dels@),
                iv == lines_view(inss@),
                scores@ == base + row_candidates(dv, iv, di as int, ii as int),
                all_wf(scores@),
                forall|k: int|
                    0 <= k < scores@.len() ==> (#[trigger] scores@[k]).1.0 < dels@.len()
                        && scores@[k].1.1 < inss@.len(),
            decreases inss.len() - ii,
        {
            proof {
                assert(dv[di as int] == dels@[di as int]@);
                assert(iv[ii as int] == inss@[ii as int]@);
            }
            let sim = line_similarity(dels[di].as_slice(), inss[ii].as_slice());
            let ghost before = scores@;
            if sim.exceeds(3, 10) {
                scores.push((sim, (di, ii)));
            }
            proof {
                assert(scores@ =~= base + row_candidates(dv, iv, di as int, ii + 1));
                assert forall|k: int| 0 <= k < scores@.len() implies (#[trigger] scores@[k]).0.wf()
                    by {
                    if k < before.len() {
                        assert(scores@[k] == before[k]);
                    }
                }
            }
            ii = ii + 1;
        }
        di = di + 1;
    }
    let sorted = sort_by_score_desc(scores);
    proof {
        crate::rank::lemma_sort_desc_len(candidates(dv, iv, dels.len() as int));
        let nd = dels@.len();
        let ni = inss@.len();
        crate::rank::lemma_sort_desc_all(
            candidates(dv, iv, dels.len() as int),
            |x: (Ratio, (usize, usize))| x.1.0 < nd && x.1.1 < ni,
        );
    }
    let mut del_used: Vec<bool> = Vec::new();
    let mut k: usize = 0;
    while k < dels.len()
        invariant
            k <= dels.len(),
            del_used@.len() == k,
            forall|t: int| 0 <= t < k ==> !(#[trigger] del_used@[t]),
        decreases dels.len() - k,
    {
        del_used.push(false);
        k = k + 1;
    }
    let mut ins_used: Vec<bool> = Vec::new();
    let mut k: usize = 0;
    while k < inss.len()
        invariant
            k <= inss.len(),
            ins_used@.len() == k,
            forall|t: int| 0 <= t < k ==> !(#[trigger] ins_used@[t]),
        decreases inss.len() - k,
    {
        ins_used.push(false);
        k = k + 1;
    }
    let mut pairs: Vec<(usize, usize)> = Vec::new();
    let mut s: usize = 0;
    while s < sorted.len()
        invariant
            s <= sorted.len(),
            del_used@.len() == dels.len(),
            ins_used@.len() == inss.len(),
            pairs@ == greedy_pairs(sorted@.take(s as int)),
            forall|t: int| 0 <= t < dels.len() ==> (#[trigger] del_used@[t] <==> uses_del(pairs@, t as usize)),
            forall|t: int| 0 <= t < inss.len() ==> (#[trigger] ins_used@[t] <==> uses_ins(pairs@, t as usize)),
            forall|t: int|
                0 <= t < sorted@.len() ==> (#[trigger] sorted@[t]).1.0 < dels@.len()
                    && sorted@[t].1.1 < inss@.len(),
            forall|t: int|
                0 <= t < pairs@.len() ==> (#[trigger] pairs@[t]).0 < dels@.len() && pairs@[t].1
                    < inss@.len(),
        decreases sorted.len() - s,
    {
        let (d, i) = sorted[s].1;
        let ghost before = pairs@;
        proof {
            assert(sorted@.take(s + 1).drop_last() =~= sorted@.take(s as int));
        }
        if !del_used[d] && !ins_used[i] {
            del_used.set(d, true);
            ins_used.set(i, true);
            pairs.push((d, i));
            proof {
                assert forall|t: int| 0 <= t < dels.len() implies (#[trigger] del_used@[t]
                    <==> uses_del(pairs@, t as usize)) by {
                    if uses_del(before, t as usize) {
                        let w = choose|w: int| 0 <= w < before.len() && before[w].0 == t as usize;
                        assert(pairs@[w] == before[w]);
                    }
                    if uses_del(pairs@, t as usize) && t != d {
                        let w = choose|w: int| 0 <= w < pairs@.len() && pairs@[w].0 == t as usize;
                        assert(w < before.len());
                        assert(before[w] == pairs@[w]);
                    }
                    if t == d {
                        assert(pairs@[before.len() as int].0 == d);
                    }
                }
                assert forall|t: int| 0 <= t < inss.len() implies (#[trigger] ins_used@[t]
                    <==> uses_ins(pairs@, t as usize)) by {
                    if uses_ins(before, t as usize) {
                        let w = choose|w: int| 0 <= w < before.len() && before[w].1 == t as usize;
                        assert(pairs@[w] == before[w]);
                    }
                    if uses_ins(pairs@, t as usize) && t != i {
                        let w = choose|w: int| 0 <= w < pairs@.len() && pairs@[w].1 == t as usize;
                        assert(w < before.len());
                        assert(before[w] == pairs@[w]);
                    }
                    if t == i {
                        assert(pairs@[before.len() as int].1 == i);
                    }
                }
            }
        }
        s = s + 1;
    }
    proof {
        assert(sorted@.take(sorted@.len() as int) =~= sorted@);
    }
    pairs
}

// ------------------------------------------------------------ word diffs

/// The text without trailing newlines (`trim_end_matches('\n')`).
pub open spec fn trim_nl(s: Seq<char>) -> Seq<char>
    decreases s.len(),
{
    if s.len() > 0 && s.last() == '\n' {
        trim_nl(s.drop_last())
    } else {
        s
    }
}

fn trim_newlines(s: &str) -> (r: String)
    ensures
        r@ == trim_nl(s@),
{
    let c = chars_of(s);
    let mut end: usize = c.len();
    assert(c@.take(c@.len() as int) =~= c@);
    while end > 0 && c[end - 1] == '\n'
        invariant
            end <= c@.len(),
            trim_nl(c@) == trim_nl(c@.take(end as int)),
        decreases end,
    {
        proof {
            assert(c@.take(end as int).drop_last() =~= c@.take(end - 1));
        }
        end = end - 1;
    }
    proof {
        assert(c@.take(c@.len() as int) =~= c@);
    }
    let mut out: Vec<char> = Vec::new();
    let mut k: usize = 0;
    while k < end
        invariant
            k <= end <= c@.len(),
            out@ == c@.take(k as int),
        decreases end - k,
    {
        out.push(c[k]);
        k = k + 1;
        assert(out@ =~= c@.take(k as int));
    }
    string_from_chars(out.as_slice())
}

/// Spans of the old side: equal parts plain, deleted parts highlighted.
pub open spec fn old_side(ch: Seq<(DiffLineTag, Seq<char>)>) -> Seq<(Seq<char>, bool)>
    decreases ch.len(),
{
    if ch.len() == 0 {
        Seq::empty()
    } else {
        let prev = old_side(ch.drop_last());
        match ch.last().0 {
            DiffLineTag::Equal => prev.push((ch.last().1, false)),
            DiffLineTag::Delete => prev.push((ch.last().1, true)),
            DiffLineTag::Insert => prev,
        }
    }
}

/// Spans of the new side: equal parts plain, inserted parts highlighted.
pub open spec fn new_side(ch: Seq<(DiffLineTag, Seq<char>)>) -> Seq<(Seq<char>, bool)>
    decreases ch.len(),
{
    if ch.len() == 0 {
        Seq::empty()
    } else {
        let prev = new_side(ch.drop_last());
        match ch.last().0 {
            DiffLineTag::Equal => prev.push((ch.last().1, false)),
            DiffLineTag::Insert => prev.push((ch.last().1, true)),
            DiffLineTag::Delete => prev,
        }
    }
}

pub open spec fn word_diff_changes(old_line: Seq<char>, new_line: Seq<char>) -> Seq<
    (DiffLineTag, Seq<char>),
> {
    word_changes(trim_nl(old_line), trim_nl(new_line))
}

pub open spec fn spans_view(v: Seq<DiffSpan>) -> Seq<(Seq<char>, bool)> {
    v.map_values(|s: DiffSpan| s@)
}

/// Word-level diff of two lines: spans of the old line and of the new line.
fn word_level_diff(old_line: &str, new_line: &str) -> (r: (Vec<DiffSpan>, Vec<DiffSpan>))
    ensures
        spans_view(r.0@) == old_side(word_diff_changes(old_line@, new_line@)),
        spans_view(r.1@) == new_side(word_diff_changes(old_line@, new_line@)),
{
    let old_trimmed = trim_newlines(old_line);
    let new_trimmed = trim_newlines(new_line);
    let changes = diff_words(old_trimmed.as_str(), new_trimmed.as_str());
    let ghost cv = changes_view(changes@);
    let mut old_spans: Vec<DiffSpan> = Vec::new();
    let mut new_spans: Vec<DiffSpan> = Vec::new();
    let mut i: usize = 0;
    while i < changes.len()
        invariant
            i <= changes.len(),
            cv == changes_view(changes@),
            spans_view(old_spans@) == old_side(cv.take(i as int)),
            spans_view(new_spans@) == new_side(cv.take(i as int)),
        decreases changes.len() - i,
    {
        proof {
            assert(cv.take(i + 1).drop_last() =~= cv.take(i as int));
        }
        let ghost o0 = old_spans@;
        let ghost n0 = new_spans@;
        let tag = changes[i].0;
        match tag {
            DiffLineTag::Equal => {
                old_spans.push(DiffSpan { text: changes[i].1.clone(), highlighted: false });
                new_spans.push(DiffSpan { text: changes[i].1.clone(), highlighted: false });
            },
            DiffLineTag::Delete => {
                old_spans.push(DiffSpan { text: changes[i].1.clone(), highlighted: true });
            },
            DiffLineTag::Insert => {
                new_spans.push(DiffSpan { text: changes[i].1.clone(), highlighted: true });
            },
        }
        proof {
            assert(spans_view(old_spans@) =~= old_side(cv.take(i + 1)));
            assert(spans_view(new_spans@) =~= new_side(cv.take(i + 1)));
        }
        i = i + 1;
    }
    proof {
        assert(cv.take(changes.len() as int) =~= cv);
    }
    (old_spans, new_spans)
}

// ------------------------------------------------------------ body diffs

/// End of the run of `tag` changes that starts at `i`.
pub open spec fn run_end(ch: Seq<(DiffLineTag, Seq<char>)>, i: int, tag: DiffLineTag) -> int
    decreases ch.len() - i,
{
    if 0 <= i < ch.len() && ch[i].0 == tag {
        run_end(ch, i + 1, tag)
    } else {
        i
    }
}

pub proof fn lemma_run_end(ch: Seq<(DiffLineTag, Seq<char>)>, i: int, tag: DiffLineTag)
    requires
        0 <= i <= ch.len(),
    ensures
        i <= run_end(ch, i, tag) <= ch.len(),
        i < ch.len() && ch[i].0 == tag ==> i < run_end(ch, i, tag),
        forall|k: int| i <= k < run_end(ch, i, tag) ==> ch[k].0 == tag,
        run_end(ch, i, tag) < ch.len() ==> ch[run_end(ch, i, tag)].0 != tag,
    decreases ch.len() - i,
{
    if i < ch.len() && ch[i].0 == tag {
        lemma_run_end(ch, i + 1, tag);
    }
}

/// The texts of `ch[a..b]`.
pub open spec fn texts(ch: Seq<(DiffLineTag, Seq<char>)>, a: int, b: int) -> Seq<Seq<char>> {
    ch.subrange(a, b).map_values(|x: (DiffLineTag, Seq<char>)| x.1)
}

/// The insert line paired with delete line `j`, if any.
pub open spec fn partner_of_del(pairs: Seq<(usize, usize)>, j: int) -> Option<int>
    decreases pairs.len(),
{
    if pairs.len() == 0 {
        None
    } else if pairs[0].0 == j {
        Some(pairs[0].1 as int)
    } else {
        partner_of_del(pairs.drop_first(), j)
    }
}

/// The delete line paired with insert line `j`, if any.
pub open spec fn partner_of_ins(pairs: Seq<(usize, usize)>, j: int) -> Option<int>
    decreases pairs.len(),
{
    if pairs.len() == 0 {
        None
    } else if pairs[0].1 == j {
        Some(pairs[0].0 as int)
    } else {
        partner_of_ins(pairs.drop_first(), j)
    }
}

/// Delete line `j` of a replaced block: word-highlighted against its
/// partner, fully highlighted when it has none.
pub open spec fn del_line(dels: Seq<Seq<char>>, inss: Seq<Seq<char>>, j: int) -> LineView {
    match partner_of_del(pairing(dels, inss), j) {
        Some(ii) => LineView {
            tag: DiffLineTag::Delete,
            spans: old_side(word_diff_changes(dels[j], inss[ii])),
        },
        None => LineView { tag: DiffLineTag::Delete, spans: seq![(trim_nl(dels[j]), true)] },
    }
}

/// Insert line `j` of a replaced block.
pub open spec fn ins_line(dels: Seq<Seq<char>>, inss: Seq<Seq<char>>, j: int) -> LineView {
    match partner_of_ins(pairing(dels, inss), j) {
        Some(di) => LineView {
            tag: DiffLineTag::Insert,
            spans: new_side(word_diff_changes(dels[di], inss[j])),
        },
        None => LineView { tag: DiffLineTag::Insert, spans: seq![(trim_nl(inss[j]), true)] },
    }
}

/// A replaced block: all its delete lines, then all its insert lines.
pub open spec fn block_lines(dels: Seq<Seq<char>>, inss: Seq<Seq<char>>) -> Seq<LineView> {
    Seq::new(dels.len(), |j: int| del_line(dels, inss, j)) + Seq::new(
        inss.len(),
        |j: int| ins_line(dels, inss, j),
    )
}

/// The diff lines for the changes from index `i` on.
pub open spec fn body_lines(ch: Seq<(DiffLineTag, Seq<char>)>, i: int) -> Seq<LineView>
    decreases ch.len() - i,
{
    if i < 0 || i >= ch.len() {
        Seq::empty()
    } else {
        match ch[i].0 {
            DiffLineTag::Equal => seq![
                LineView { tag: DiffLineTag::Equal, spans: seq![(trim_nl(ch[i].1), false)] },
            ] + body_lines(ch, i + 1),
            DiffLineTag::Insert => seq![
                LineView { tag: DiffLineTag::Insert, spans: seq![(trim_nl(ch[i].1), true)] },
            ] + body_lines(ch, i + 1),
            DiffLineTag::Delete => {
                let de = run_end(ch, i, DiffLineTag::Delete);
                let ie = run_end(ch, de, DiffLineTag::Insert);
                proof {
                    lemma_run_end(ch, i, DiffLineTag::Delete);
                    lemma_run_end(ch, de, DiffLineTag::Insert);
                }
                block_lines(texts(ch, i, de), texts(ch, de, ie)) + body_lines(ch, ie)
            },
        }
    }
}

fn find_partner_of_del(pairs: &Vec<(usize, usize)>, j: usize) -> (r: Option<usize>)
    ensures
        match r {
            Some(x) => partner_of_del(pairs@, j as int) == Some(x as int),
            None => partner_of_del(pairs@, j as int) is None,
        },
{
    let mut k: usize = 0;
    assert(pairs@.skip(0) =~= pairs@);
    while k < pairs.len()
        invariant
            k <= pairs.len(),
            partner_of_del(pairs@, j as int) == partner_of_del(pairs@.skip(k as int), j as int),
        decreases pairs.len() - k,
    {
        proof {
            assert(pairs@.skip(k as int).drop_first() =~= pairs@.skip(k + 1));
        }
        if pairs[k].0 == j {
            return Some(pairs[k].1);
        }
        k = k + 1;
    }
    None
}

fn find_partner_of_ins(pairs: &Vec<(usize, usize)>, j: usize) -> (r: Option<usize>)
    ensures
        match r {
            Some(x) => partner_of_ins(pairs@, j as int) == Some(x as int),
            None => partner_of_ins(pairs@, j as int) is None,
        },
{
    let mut k: usize = 0;
    assert(pairs@.skip(0) =~= pairs@);
    while k < pairs.len()
        invariant
            k <= pairs.len(),
            partner_of_ins(pairs@, j as int) == partner_of_ins(pairs@.skip(k as int), j as int),
        decreases pairs.len() - k,
    {
        proof {
            assert(pairs@.skip(k as int).drop_first() =~= pairs@.skip(k + 1));
        }
        if pairs[k].1 == j {
            return Some(pairs[k].0);
        }
        k = k + 1;
    }
    None
}

proof fn lemma_partner_bounds(pairs: Seq<(usize, usize)>, j: int, nd: int, ni: int)
    requires
        forall|k: int| 0 <= k < pairs.len() ==> (#[trigger] pairs[k]).0 < nd && pairs[k].1 < ni,
    ensures
        partner_of_del(pairs, j) matches Some(x) ==> 0 <= x < ni,
        partner_of_ins(pairs, j) matches Some(x) ==> 0 <= x < nd,
    decreases pairs.len(),
{
    if pairs.len() > 0 {
        let rest = pairs.drop_first();
        assert forall|k: int| 0 <= k < rest.len() implies (#[trigger] rest[k]).0 < nd && rest[k].1
            < ni by {
            assert(rest[k] == pairs[k + 1]);
        }
        lemma_partner_bounds(rest, j, nd, ni);
    }
}

fn one_span_line(tag: DiffLineTag, text: &str, highlighted: bool) -> (r: DiffLine)
    ensures
        r@ == (LineView { tag, spans: seq![(trim_nl(text@), highlighted)] }),
{
    let mut spans: Vec<DiffSpan> = Vec::new();
    spans.push(DiffSpan { text: trim_newlines(text), highlighted });
    let r = DiffLine { tag, spans };
    proof {
        assert(r@.spans =~= seq![(trim_nl(text@), highlighted)]);
    }
    r
}

pub open spec fn strings_view(v: Seq<String>) -> Seq<Seq<char>> {
    v.map_values(|s: String| s@)
}

pub open spec fn dl_view(v: Seq<DiffLine>) -> Seq<LineView> {
    v.map_values(|l: DiffLine| l@)
}

fn to_char_lines(v: &Vec<String>) -> (r: Vec<Vec<char>>)
    ensures
        lines_view(r@) == strings_view(v@),
{
    let mut out: Vec<Vec<char>> = Vec::new();
    let mut k: usize = 0;
    while k < v.len()
        invariant
            k <= v.len(),
            lines_view(out@) == strings_view(v@).take(k as int),
        decreases v.len() - k,
    {
        let ghost prev = out@;
        let cs = chars_of(v[k].as_str());
        out.push(cs);
        proof {
            assert(lines_view(out@) =~= lines_view(prev).push(v@[k as int]@));
            assert(strings_view(v@).take(k + 1) =~= strings_view(v@).take(k as int).push(
                v@[k as int]@,
            ));
        }
        k = k + 1;
    }
    proof {
        assert(strings_view(v@).take(v.len() as int) =~= strings_view(v@));
    }
    out
}

fn emit_block(lines: &mut Vec<DiffLine>, dels: &Vec<String>, inss: &Vec<String>)
    ensures
        dl_view(final(lines)@) == dl_view(old(lines)@) + block_lines(
            strings_view(dels@),
            strings_view(inss@),
        ),
{
    let ghost dv = strings_view(dels@);
    let ghost iv = strings_view(inss@);
    let ghost start = dl_view(lines@);
    let dchars = to_char_lines(dels);
    let ichars = to_char_lines(inss);
    let pairs = pair_by_similarity(&dchars, &ichars);
    proof {
        lemma_partner_bounds(pairs@, 0, dels.len() as int, inss.len() as int);
    }
    let mut j: usize = 0;
    while j < dels.len()
        invariant
            j <= dels.len(),
            dv == strings_view(dels@),
            iv == strings_view(inss@),
            pairs@ == pairing(dv, iv),
            forall|k: int|
                0 <= k < pairs@.len() ==> (#[trigger] pairs@[k]).0 < dels@.len() && pairs@[k].1
                    < inss@.len(),
            dl_view(lines@) == start + Seq::new(j as nat, |t: int| del_line(dv, iv, t)),
        decreases dels.len() - j,
    {
        let ghost before = lines@;
        proof {
            lemma_partner_bounds(pairs@, j as int, dels.len() as int, inss.len() as int);
        }
        match find_partner_of_del(&pairs, j) {
            Some(ii) => {
                let (os, _ns) = word_level_diff(dels[j].as_str(), inss[ii].as_str());
                let l = DiffLine { tag: DiffLineTag::Delete, spans: os };
                lines.push(l);
                proof {
                    assert(l@ == del_line(dv, iv, j as int));
                }
            },
            None => {
                let l = one_span_line(DiffLineTag::Delete, dels[j].as_str(), true);
                lines.push(l);
                proof {
                    assert(l@ == del_line(dv, iv, j as int));
                }
            },
        }
        proof {
            assert(dl_view(lines@) =~= dl_view(before).push(lines@.last()@));
            assert(dl_view(lines@) =~= start + Seq::new((j + 1) as nat, |t: int| del_line(dv, iv, t)));
        }
        j = j + 1;
    }
    let ghost mid = dl_view(lines@);
    let mut j: usize = 0;
    while j < inss.len()
        invariant
            j <= inss.len(),
            dv == strings_view(dels@),
            iv == strings_view(inss@),
            pairs@ == pairing(dv, iv),
            forall|k: int|
                0 <= k < pairs@.len() ==> (#[trigger] pairs@[k]).0 < dels@.len() && pairs@[k].1
                    < inss@.len(),
            dl_view(lines@) == mid + Seq::new(j as nat, |t: int| ins_line(dv, iv, t)),
        decreases inss.len() - j,
    {
        let ghost before = lines@;
        proof {
            lemma_partner_bounds(pairs@, j as int, dels.len() as int, inss.len() as int);
        }
        match find_partner_of_ins(&pairs, j) {
            Some(di) => {
                let (_os, ns) = word_level_diff(dels[di].as_str(), inss[j].as_str());
                let l = DiffLine { tag: DiffLineTag::Insert, spans: ns };
                lines.push(l);
                proof {
                    assert(l@ == ins_line(dv, iv, j as int));
                }
            },
            None => {
                let l = one_span_line(DiffLineTag::Insert, inss[j].as_str(), true);
                lines.push(l);
                proof {
                    assert(l@ == ins_line(dv, iv, j as int));
                }
            },
        }
        proof {
            assert(dl_view(lines@) =~= dl_view(before).push(lines@.last()@));
            assert(dl_view(lines@) =~= mid + Seq::new((j + 1) as nat, |t: int| ins_line(dv, iv, t)));
        }
        j = j + 1;
    }
    proof {
        assert(dl_view(lines@) =~= start + block_lines(dv, iv));
    }
}

/// Builds the structured diff from a line-level diff: equal and lone insert
/// lines are copied, and each block of deletes followed by inserts is
/// emitted with its lines paired by similarity.
pub fn body_diff_from_changes(changes: &Vec<(DiffLineTag, String)>) -> (r: BodyDiff)
    ensures
        r@ == body_lines(changes_view(changes@), 0),
{
    let ghost cv = changes_view(changes@);
    let mut lines: Vec<DiffLine> = Vec::new();
    let mut i: usize = 0;
    proof {
        assert(dl_view(lines@) =~= Seq::<LineView>::empty());
    }
    while i < changes.len()
        invariant
            i <= changes.len(),
            cv == changes_view(changes@),
            body_lines(cv, 0) == dl_view(lines@) + body_lines(cv, i as int),
        decreases changes.len() - i,
    {
        let ghost before = dl_view(lines@);
        match changes[i].0 {
            DiffLineTag::Equal => {
                let l = one_span_line(DiffLineTag::Equal, changes[i].1.as_str(), false);
                lines.push(l);
                proof {
                    assert(dl_view(lines@) =~= before.push(l@));
                    assert(body_lines(cv, i as int) =~= seq![l@] + body_lines(cv, i + 1));
                    assert(before + body_lines(cv, i as int) =~= dl_view(lines@) + body_lines(
                        cv,
                        i + 1,
                    ));
                }
                i = i + 1;
            },
            DiffLineTag::Insert => {
                let l = one_span_line(DiffLineTag::Insert, changes[i].1.as_str(), true);
                lines.push(l);
                proof {
                    assert(dl_view(lines@) =~= before.push(l@));
                    assert(body_lines(cv, i as int) =~= seq![l@] + body_lines(cv, i + 1));
                    assert(before + body_lines(cv, i as int) =~= dl_view(lines@) + body_lines(
                        cv,
                        i + 1,
                    ));
                }
                i = i + 1;
            },
            DiffLineTag::Delete => {
                let del_start = i;
                let mut dels: Vec<String> = Vec::new();
                while i < changes.len() && changes[i].0 == DiffLineTag::Delete
                    invariant
                        del_start <= i <= changes.len(),
                        cv == changes_view(changes@),
                        run_end(cv, del_start as int, DiffLineTag::Delete) == run_end(
                            cv,
                            i as int,
                            DiffLineTag::Delete,
                        ),
                        strings_view(dels@) == texts(cv, del_start as int, i as int),
                    decreases changes.len() - i,
                {
                    let ghost prev = dels@;
                    dels.push(changes[i].1.clone());
                    proof {
                        assert(strings_view(dels@) =~= strings_view(prev).push(cv[i as int].1));
                        assert(texts(cv, del_start as int, i + 1) =~= texts(cv, del_start as int, i as int).push(
                            cv[i as int].1,
                        ));
                    }
                    i = i + 1;
                }
                let ins_start = i;
                let mut inss: Vec<String> = Vec::new();
                proof {
                    assert(strings_view(inss@) =~= texts(cv, ins_start as int, ins_start as int));
                }
                while i < changes.len() && changes[i].0 == DiffLineTag::Insert
                    invariant
                        ins_start <= i <= changes.len(),
                        cv == changes_view(changes@),
                        run_end(cv, ins_start as int, DiffLineTag::Insert) == run_end(
                            cv,
                            i as int,
                            DiffLineTag::Insert,
                        ),
                        strings_view(inss@) == texts(cv, ins_start as int, i as int),
                    decreases changes.len() - i,
                {
                    let ghost prev = inss@;
                    inss.push(changes[i].1.clone());
                    proof {
                        assert(strings_view(inss@) =~= strings_view(prev).push(cv[i as int].1));
                        assert(texts(cv, ins_start as int, i + 1) =~= texts(cv, ins_start as int, i as int).push(
                            cv[i as int].1,
                        ));
                    }
                    i = i + 1;
                }
                emit_block(&mut lines, &dels, &inss);
                proof {
                    assert(run_end(cv, del_start as int, DiffLineTag::Delete) == ins_start);
                    assert(run_end(cv, ins_start as int, DiffLineTag::Insert) == i);
                    assert(before + body_lines(cv, del_start as int) =~= dl_view(lines@)
                        + body_lines(cv, i as int));
                }
            },
        }
    }
    BodyDiff { lines }
}

/// The structured diff of two bodies.
pub open spec fn body_diff_spec(old: Seq<char>, new: Seq<char>) -> Seq<LineView> {
    body_lines(line_changes(old, new), 0)
}

/// Generates a structured diff with word-level highlights inside changed lines.
pub fn body_diff(old: &str, new: &str) -> (r: BodyDiff)
    ensures
        r@ == body_diff_spec(old@, new@),
{
    let changes = diff_lines(old, new);
    body_diff_from_changes(&changes)
}

} // verus!
