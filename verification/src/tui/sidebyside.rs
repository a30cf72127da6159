//! The side-by-side view of a change: the old and the new version of its
//! files, lines aligned by a file-level diff, and each changed symbol of the
//! files framed as a coloured block.
use vstd::prelude::*;

use crate::ast::symbol::SymbolView;
use crate::diff::body_diff::{changes_view, diff_lines, line_changes, DiffLineTag};
use crate::diff::change::{change_symbol_name, ChangeKind, ChangeKindView, ChangeView, SemanticChange};
use crate::repo::impact::{parts_equal, parts_vec_view, path_parts, path_parts_of};
use crate::git::{char_lines, split_lines, text_lines};
use crate::text::{chars_of, padded_decimal, padded_usize, push_char, push_str, string_from_chars};
use crate::tui::style::{
    block_color, block_color_at, color_to_bg, darken, darken_color, lines_view, to_bg, Color,
    LineSpans, StyledLine, StyledSpan, TextStyle, BLOCK_COLOR_COUNT,
};

verus! {

// ------------------------------------------------------------ aligned rows

/// A row of the view: a line on both sides, or on one side only.
#[derive(Clone, Copy, Debug)]
pub enum AlignedRow {
    Both { old_line: usize, new_line: usize },
    OldOnly { old_line: usize },
    NewOnly { new_line: usize },
}

/// Lines of the old text among the first changes of a line diff.
pub open spec fn old_count(t: Seq<(DiffLineTag, Seq<char>)>) -> nat
    decreases t.len(),
{
    if t.len() == 0 {
        0
    } else {
        old_count(t.drop_last()) + if t.last().0 is Insert {
            0nat
        } else {
            1nat
        }
    }
}

/// Lines of the new text among the first changes of a line diff.
pub open spec fn new_count(t: Seq<(DiffLineTag, Seq<char>)>) -> nat
    decreases t.len(),
{
    if t.len() == 0 {
        0
    } else {
        new_count(t.drop_last()) + if t.last().0 is Delete {
            0nat
        } else {
            1nat
        }
    }
}

/// One row per change of the line diff, with 1-based line numbers.
pub open spec fn aligned_spec(t: Seq<(DiffLineTag, Seq<char>)>) -> Seq<AlignedRow>
    decreases t.len(),
{
    if t.len() == 0 {
        Seq::empty()
    } else {
        let p = t.drop_last();
        let o = (old_count(p) + 1) as usize;
        let n = (new_count(p) + 1) as usize;
        aligned_spec(p).push(
            match t.last().0 {
                DiffLineTag::Equal => AlignedRow::Both { old_line: o, new_line: n },
                DiffLineTag::Delete => AlignedRow::OldOnly { old_line: o },
                DiffLineTag::Insert => AlignedRow::NewOnly { new_line: n },
            },
        )
    }
}

/// The old line numbers of the rows that show an old line, in order.
pub open spec fn old_column(rows: Seq<AlignedRow>) -> Seq<usize>
    decreases rows.len(),
{
    if rows.len() == 0 {
        Seq::empty()
    } else {
        let r = old_column(rows.drop_last());
        match rows.last() {
            AlignedRow::Both { old_line, .. } => r.push(old_line),
            AlignedRow::OldOnly { old_line } => r.push(old_line),
            AlignedRow::NewOnly { .. } => r,
        }
    }
}

/// The new line numbers of the rows that show a new line, in order.
pub open spec fn new_column(rows: Seq<AlignedRow>) -> Seq<usize>
    decreases rows.len(),
{
    if rows.len() == 0 {
        Seq::empty()
    } else {
        let r = new_column(rows.drop_last());
        match rows.last() {
            AlignedRow::Both { new_line, .. } => r.push(new_line),
            AlignedRow::NewOnly { new_line } => r.push(new_line),
            AlignedRow::OldOnly { .. } => r,
        }
    }
}

proof fn lemma_counts_bounded(t: Seq<(DiffLineTag, Seq<char>)>)
    ensures
        old_count(t) <= t.len(),
        new_count(t) <= t.len(),
    decreases t.len(),
{
    if t.len() > 0 {
        lemma_counts_bounded(t.drop_last());
    }
}

/// Each side of the view shows its lines once each, in order, without a
/// gap: the old column reads 1, 2, ... up to the old lines of the diff, and
/// the new column likewise up to its new lines.
pub proof fn lemma_aligned_columns(t: Seq<(DiffLineTag, Seq<char>)>)
    requires
        t.len() <= usize::MAX,
    ensures
        old_column(aligned_spec(t)) == Seq::new(old_count(t), |k: int| (k + 1) as usize),
        new_column(aligned_spec(t)) == Seq::new(new_count(t), |k: int| (k + 1) as usize),
    decreases t.len(),
{
    if t.len() == 0 {
        assert(old_column(aligned_spec(t)) =~= Seq::new(old_count(t), |k: int| (k + 1) as usize));
        assert(new_column(aligned_spec(t)) =~= Seq::new(new_count(t), |k: int| (k + 1) as usize));
    } else {
        let p = t.drop_last();
        lemma_aligned_columns(p);
        lemma_counts_bounded(p);
        let rows = aligned_spec(t);
        assert(rows.drop_last() =~= aligned_spec(p));
        assert(old_column(rows) =~= Seq::new(old_count(t), |k: int| (k + 1) as usize));
        assert(new_column(rows) =~= Seq::new(new_count(t), |k: int| (k + 1) as usize));
    }
}

/// The rows of the view of two texts, from their line diff.
pub fn build_aligned_rows(old_text: &str, new_text: &str) -> (r: Vec<AlignedRow>)
    ensures
        r@ == aligned_spec(line_changes(old_text@, new_text@)),
{
    let changes = diff_lines(old_text, new_text);
    let ghost t = changes_view(changes@);
    let mut rows: Vec<AlignedRow> = Vec::new();
    let mut o: usize = 0;
    let mut n: usize = 0;
    let mut i: usize = 0;
    proof {
        assert(t.take(0) =~= Seq::<(DiffLineTag, Seq<char>)>::empty());
    }
    while i < changes.len()
        invariant
            i <= changes@.len(),
            t == changes_view(changes@),
            t == line_changes(old_text@, new_text@),
            rows@ == aligned_spec(t.take(i as int)),
            o == old_count(t.take(i as int)),
            n == new_count(t.take(i as int)),
            o <= i,
            n <= i,
        decreases changes.len() - i,
    {
        proof {
            assert(t.take(i + 1).drop_last() =~= t.take(i as int));
            assert(t.take(i + 1).last() == t[i as int]);
        }
        match changes[i].0 {
            DiffLineTag::Equal => {
                o = o + 1;
                n = n + 1;
                rows.push(AlignedRow::Both { old_line: o, new_line: n });
            },
            DiffLineTag::Delete => {
                o = o + 1;
                rows.push(AlignedRow::OldOnly { old_line: o });
            },
            DiffLineTag::Insert => {
                n = n + 1;
                rows.push(AlignedRow::NewOnly { new_line: n });
            },
        }
        i = i + 1;
    }
    proof {
        assert(t.take(changes@.len() as int) =~= t);
    }
    rows
}

// --------------------------------------------------------------- line sets

/// A set of line numbers: a range (empty when `from > to`) and a list.
#[derive(Debug)]
pub struct LineSet {
    pub from: usize,
    pub to: usize,
    pub lines: Vec<usize>,
}

impl View for LineSet {
    type V = Set<usize>;

    open spec fn view(&self) -> Set<usize> {
        Set::new(|l: usize| (self.from <= l && l <= self.to) || self.lines@.contains(l))
    }
}

impl LineSet {
    pub fn empty() -> (r: LineSet)
        ensures
            r@ == Set::<usize>::empty(),
    {
        let r = LineSet { from: 1, to: 0, lines: Vec::new() };
        proof {
            assert(r@ =~= Set::<usize>::empty());
        }
        r
    }

    pub fn contains(&self, l: usize) -> (r: bool)
        ensures
            r == self@.contains(l),
    {
        if self.from <= l && l <= self.to {
            return true;
        }
        let mut i: usize = 0;
        while i < self.lines.len()
            invariant
                i <= self.lines@.len(),
                forall|k: int| 0 <= k < i ==> self.lines@[k] != l,
            decreases self.lines.len() - i,
        {
            if self.lines[i] == l {
                return true;
            }
            i = i + 1;
        }
        false
    }

    pub fn duplicate(&self) -> (r: LineSet)
        ensures
            r@ == self@,
    {
        let r = LineSet { from: self.from, to: self.to, lines: self.lines.clone() };
        proof {
            assert(r.lines@ == self.lines@);
            assert(r@ =~= self@);
        }
        r
    }
}

/// Every line of an inclusive range.
pub open spec fn span_set(r: (usize, usize)) -> Set<usize> {
    Set::new(|l: usize| r.0 <= l && l <= r.1)
}

/// The lines a body diff marks deleted (first) and inserted (second),
/// counting old lines from `o` and new lines from `n`.
pub open spec fn marked_lines(tags: Seq<DiffLineTag>, o: int, n: int) -> (Set<int>, Set<int>)
    decreases tags.len(),
{
    if tags.len() == 0 {
        (Set::empty(), Set::empty())
    } else {
        let rest = tags.drop_first();
        match tags[0] {
            DiffLineTag::Equal => marked_lines(rest, o + 1, n + 1),
            DiffLineTag::Delete => {
                let r = marked_lines(rest, o + 1, n);
                (r.0.insert(o), r.1)
            },
            DiffLineTag::Insert => {
                let r = marked_lines(rest, o, n + 1);
                (r.0, r.1.insert(n))
            },
        }
    }
}

pub open spec fn usize_lines(s: Set<int>) -> Set<usize> {
    Set::new(|l: usize| s.contains(l as int))
}

pub open spec fn first_line_or_one(s: Option<SymbolView>) -> int {
    match s {
        Some(s) => s.line_range.0 as int,
        None => 1,
    }
}

/// The changed lines of a change in its old and its new file: the whole
/// symbol when it was added or deleted, else the lines its body diff
/// deletes and inserts.
pub open spec fn changed_lines_spec(c: ChangeView) -> (Set<usize>, Set<usize>) {
    match c.kind {
        ChangeKindView::Added => (
            Set::empty(),
            match c.new_symbol {
                Some(s) => span_set(s.line_range),
                None => Set::empty(),
            },
        ),
        ChangeKindView::Deleted => (
            match c.old_symbol {
                Some(s) => span_set(s.line_range),
                None => Set::empty(),
            },
            Set::empty(),
        ),
        _ => match c.body_diff {
            None => (Set::empty(), Set::empty()),
            Some(d) => {
                let m = marked_lines(
                    d.map_values(|l: crate::diff::body_diff::LineView| l.tag),
                    first_line_or_one(c.old_symbol),
                    first_line_or_one(c.new_symbol),
                );
                (usize_lines(m.0), usize_lines(m.1))
            },
        },
    }
}

fn range_set(r: (usize, usize)) -> (s: LineSet)
    ensures
        s@ == span_set(r),
{
    let s = LineSet { from: r.0, to: r.1, lines: Vec::new() };
    proof {
        assert(s@ =~= span_set(r));
    }
    s
}

/// The changed lines of a change in its old and its new file.
pub fn compute_changed_lines(change: &SemanticChange) -> (r: (LineSet, LineSet))
    ensures
        (r.0@, r.1@) == changed_lines_spec(change@),
{
    match &change.kind {
        ChangeKind::Added => {
            let new_set = match &change.new_symbol {
                Some(s) => range_set(s.line_range),
                None => LineSet::empty(),
            };
            return (LineSet::empty(), new_set);
        },
        ChangeKind::Deleted => {
            let old_set = match &change.old_symbol {
                Some(s) => range_set(s.line_range),
                None => LineSet::empty(),
            };
            return (old_set, LineSet::empty());
        },
        _ => {},
    }
    let diff = match &change.body_diff {
        Some(d) => d,
        None => {
            return (LineSet::empty(), LineSet::empty());
        },
    };
    let ghost tags = diff@.map_values(|l: crate::diff::body_diff::LineView| l.tag);
    let o0: u128 = match &change.old_symbol {
        Some(s) => s.line_range.0 as u128,
        None => 1,
    };
    let n0: u128 = match &change.new_symbol {
        Some(s) => s.line_range.0 as u128,
        None => 1,
    };
    let ghost m = marked_lines(tags, o0 as int, n0 as int);
    let mut o: u128 = o0;
    let mut n: u128 = n0;
    let mut old_lines: Vec<usize> = Vec::new();
    let mut new_lines: Vec<usize> = Vec::new();
    proof {
        assert(tags.skip(0) =~= tags);
    }
    let mut i: usize = 0;
    while i < diff.lines.len()
        invariant
            i <= diff.lines@.len(),
            tags == diff@.map_values(|l: crate::diff::body_diff::LineView| l.tag),
            tags.len() == diff.lines@.len(),
            m == marked_lines(tags, o0 as int, n0 as int),
            o <= o0 + i,
            n <= n0 + i,
            o0 <= usize::MAX,
            n0 <= usize::MAX,
            forall|l: usize|
                #![trigger m.0.contains(l as int)]
                m.0.contains(l as int) <==> (old_lines@.contains(l) || marked_lines(
                    tags.skip(i as int),
                    o as int,
                    n as int,
                ).0.contains(l as int)),
            forall|l: usize|
                #![trigger m.1.contains(l as int)]
                m.1.contains(l as int) <==> (new_lines@.contains(l) || marked_lines(
                    tags.skip(i as int),
                    o as int,
                    n as int,
                ).1.contains(l as int)),
        decreases diff.lines.len() - i,
    {
        let ghost rest = tags.skip(i as int);
        proof {
            assert(rest.drop_first() =~= tags.skip(i + 1));
            assert(rest[0] == diff.lines@[i as int].tag);
        }
        let ghost ov = old_lines@;
        let ghost nv = new_lines@;
        let ghost cur = marked_lines(rest, o as int, n as int);
        let ghost oi = o as int;
        let ghost ni = n as int;
        match diff.lines[i].tag {
            DiffLineTag::Equal => {
                proof {
                    assert(cur == marked_lines(tags.skip(i + 1), oi + 1, ni + 1));
                }
                o = o + 1;
                n = n + 1;
            },
            DiffLineTag::Delete => {
                let ghost next = marked_lines(tags.skip(i + 1), oi + 1, ni);
                proof {
                    assert(cur == (next.0.insert(oi), next.1));
                }
                if o <= usize::MAX as u128 {
                    old_lines.push(o as usize);
                    proof {
                        assert(old_lines@ =~= ov.push(o as usize));
                        assert forall|l: usize| old_lines@.contains(l) implies (ov.contains(l) || l
                            == oi) by {
                            let k = choose|k: int| 0 <= k < old_lines@.len() && old_lines@[k] == l;
                            if k < ov.len() {
                                assert(ov[k] == l);
                            }
                        }
                        assert forall|l: usize| ov.contains(l) implies old_lines@.contains(l) by {
                            let k = choose|k: int| 0 <= k < ov.len() && ov[k] == l;
                            assert(old_lines@[k] == l);
                        }
                        assert(old_lines@[ov.len() as int] == oi);
                    }
                }
                o = o + 1;
            },
            DiffLineTag::Insert => {
                let ghost next = marked_lines(tags.skip(i + 1), oi, ni + 1);
                proof {
                    assert(cur == (next.0, next.1.insert(ni)));
                }
                if n <= usize::MAX as u128 {
                    new_lines.push(n as usize);
                    proof {
                        assert(new_lines@ =~= nv.push(n as usize));
                        assert forall|l: usize| new_lines@.contains(l) implies (nv.contains(l) || l
                            == ni) by {
                            let k = choose|k: int| 0 <= k < new_lines@.len() && new_lines@[k] == l;
                            if k < nv.len() {
                                assert(nv[k] == l);
                            }
                        }
                        assert forall|l: usize| nv.contains(l) implies new_lines@.contains(l) by {
                            let k = choose|k: int| 0 <= k < nv.len() && nv[k] == l;
                            assert(new_lines@[k] == l);
                        }
                        assert(new_lines@[nv.len() as int] == ni);
                    }
                }
                n = n + 1;
            },
        }
        i = i + 1;
    }
    let old_set = LineSet { from: 1, to: 0, lines: old_lines };
    let new_set = LineSet { from: 1, to: 0, lines: new_lines };
    proof {
        assert(tags.skip(tags.len() as int) =~= Seq::<DiffLineTag>::empty());
        assert(old_set@ =~= usize_lines(m.0));
        assert(new_set@ =~= usize_lines(m.1));
    }
    (old_set, new_set)
}

// ------------------------------------------------------------ block labels

/// How a block is labelled.
#[derive(Clone, Copy, Debug, PartialEq, Eq, Structural)]
pub enum BlockKind {
    Moved,
    Added,
    Deleted,
    Modified,
    Extracted,
    Inlined,
}

pub open spec fn block_kind_spec(k: ChangeKindView) -> BlockKind {
    match k {
        ChangeKindView::Added => BlockKind::Added,
        ChangeKindView::Deleted => BlockKind::Deleted,
        ChangeKindView::Moved { .. } => BlockKind::Moved,
        ChangeKindView::MovedAndModified { .. } => BlockKind::Moved,
        ChangeKindView::Extracted { .. } => BlockKind::Extracted,
        ChangeKindView::Inlined { .. } => BlockKind::Inlined,
        _ => BlockKind::Modified,
    }
}

/// The block kind of a change kind.
pub fn classify_block_kind(kind: &ChangeKind) -> (r: BlockKind)
    ensures
        r == block_kind_spec(kind@),
{
    match kind {
        ChangeKind::Added => BlockKind::Added,
        ChangeKind::Deleted => BlockKind::Deleted,
        ChangeKind::Moved { .. } => BlockKind::Moved,
        ChangeKind::MovedAndModified { .. } => BlockKind::Moved,
        ChangeKind::Extracted { .. } => BlockKind::Extracted,
        ChangeKind::Inlined { .. } => BlockKind::Inlined,
        _ => BlockKind::Modified,
    }
}

pub open spec fn file_or_empty(s: Option<SymbolView>) -> Seq<char> {
    match s {
        Some(s) => s.file_path,
        None => Seq::empty(),
    }
}

/// The label of a change's block on the old (`is_old`) or the new side.
pub open spec fn label_spec(c: ChangeView, k: BlockKind, is_old: bool) -> Seq<char> {
    let name = change_symbol_name(c.old_symbol, c.new_symbol);
    match k {
        BlockKind::Moved => if is_old {
            name + " -> "@ + file_or_empty(c.new_symbol)
        } else {
            name + " <- "@ + file_or_empty(c.old_symbol)
        },
        BlockKind::Extracted => if is_old {
            name + " -> extracted"@
        } else {
            name + " <- extracted"@
        },
        BlockKind::Inlined => if is_old {
            name + " -> inlined"@
        } else {
            name + " <- inlined"@
        },
        BlockKind::Added => "+ "@ + name,
        BlockKind::Deleted => "- "@ + name,
        BlockKind::Modified => "~ "@ + name,
    }
}

/// The label of a change's block.
pub fn build_label(change: &SemanticChange, kind: BlockKind, is_old: bool) -> (r: String)
    ensures
        r@ == label_spec(change@, kind, is_old),
{
    let name = change.symbol_name();
    let mut s = String::new();
    match kind {
        BlockKind::Moved => {
            push_str(&mut s, name);
            if is_old {
                push_str(&mut s, " -> ");
                match &change.new_symbol {
                    Some(sym) => push_str(&mut s, sym.file_path.as_str()),
                    None => {},
                }
            } else {
                push_str(&mut s, " <- ");
                match &change.old_symbol {
                    Some(sym) => push_str(&mut s, sym.file_path.as_str()),
                    None => {},
                }
            }
            proof {
                assert(Seq::<char>::empty() + name@ =~= name@);
                assert(s@ =~= label_spec(change@, kind, is_old));
            }
        },
        BlockKind::Extracted => {
            push_str(&mut s, name);
            push_str(&mut s, if is_old { " -> extracted" } else { " <- extracted" });
            proof {
                assert(Seq::<char>::empty() + name@ =~= name@);
            }
        },
        BlockKind::Inlined => {
            push_str(&mut s, name);
            push_str(&mut s, if is_old { " -> inlined" } else { " <- inlined" });
            proof {
                assert(Seq::<char>::empty() + name@ =~= name@);
            }
        },
        BlockKind::Added => {
            push_str(&mut s, "+ ");
            push_str(&mut s, name);
            proof {
                assert(Seq::<char>::empty() + "+ "@ =~= "+ "@);
            }
        },
        BlockKind::Deleted => {
            push_str(&mut s, "- ");
            push_str(&mut s, name);
            proof {
                assert(Seq::<char>::empty() + "- "@ =~= "- "@);
            }
        },
        BlockKind::Modified => {
            push_str(&mut s, "~ ");
            push_str(&mut s, name);
            proof {
                assert(Seq::<char>::empty() + "~ "@ =~= "~ "@);
            }
        },
    }
    s
}

// ----------------------------------------------------------- block regions

/// A changed symbol framed as a block in one file of the view.
#[derive(Debug)]
pub struct BlockRegion {
    pub start_line: usize,
    pub end_line: usize,
    pub color_idx: usize,
    pub is_selected: bool,
    pub changed_lines: LineSet,
    pub label: String,
}

pub struct RegionView {
    pub start_line: usize,
    pub end_line: usize,
    pub color_idx: usize,
    pub is_selected: bool,
    pub changed: Set<usize>,
    pub label: Seq<char>,
}

impl View for BlockRegion {
    type V = RegionView;

    open spec fn view(&self) -> RegionView {
        RegionView {
            start_line: self.start_line,
            end_line: self.end_line,
            color_idx: self.color_idx,
            is_selected: self.is_selected,
            changed: self.changed_lines@,
            label: self.label@,
        }
    }
}

pub open spec fn regions_view(v: Seq<BlockRegion>) -> Seq<RegionView> {
    v.map_values(|r: BlockRegion| r@)
}

/// Regions whose colours are in the palette.
pub open spec fn regions_wf(v: Seq<RegionView>) -> bool {
    forall|i: int| 0 <= i < v.len() ==> (#[trigger] v[i]).color_idx < BLOCK_COLOR_COUNT
}

/// Whether a change's symbol lies in the file shown (paths compared by
/// their components).
pub open spec fn touches(s: Option<SymbolView>, f: Option<Seq<char>>) -> bool {
    match s {
        Some(s) => match f {
            Some(f) => path_parts(s.file_path) == path_parts(f),
            None => false,
        },
        None => false,
    }
}

pub open spec fn region_spec(
    s: SymbolView,
    color: int,
    selected: bool,
    changed: Set<usize>,
    label: Seq<char>,
) -> RegionView {
    RegionView {
        start_line: s.line_range.0,
        end_line: s.line_range.1,
        color_idx: color as usize,
        is_selected: selected,
        changed,
        label,
    }
}

/// The blocks of the old and of the new file, in order of the changes,
/// with the number of changes that got a colour.
pub open spec fn regions_from(
    cs: Seq<ChangeView>,
    old_f: Option<Seq<char>>,
    new_f: Option<Seq<char>>,
    selected: int,
) -> (Seq<RegionView>, Seq<RegionView>, nat)
    decreases cs.len(),
{
    if cs.len() == 0 {
        (Seq::empty(), Seq::empty(), 0)
    } else {
        let r = regions_from(cs.drop_last(), old_f, new_f, selected);
        let c = cs.last();
        let idx = cs.len() - 1;
        let to = touches(c.old_symbol, old_f);
        let tn = touches(c.new_symbol, new_f);
        if !to && !tn {
            r
        } else {
            let color = (r.2 % 8) as int;
            let sel = idx == selected;
            let changed = changed_lines_spec(c);
            let kind = block_kind_spec(c.kind);
            let o = if to {
                r.0.push(
                    region_spec(c.old_symbol->0, color, sel, changed.0, label_spec(c, kind, true)),
                )
            } else {
                r.0
            };
            let n = if tn {
                r.1.push(
                    region_spec(c.new_symbol->0, color, sel, changed.1, label_spec(c, kind, false)),
                )
            } else {
                r.1
            };
            (o, n, r.2 + 1)
        }
    }
}

/// `x` placed after every region that does not start after it.
pub open spec fn insert_region(s: Seq<RegionView>, x: RegionView) -> Seq<RegionView>
    decreases s.len(),
{
    if s.len() == 0 {
        seq![x]
    } else if x.start_line < s.last().start_line {
        insert_region(s.drop_last(), x).push(s.last())
    } else {
        s.push(x)
    }
}

/// The stable sort of regions by their first line.
pub open spec fn sort_regions(s: Seq<RegionView>) -> Seq<RegionView>
    decreases s.len(),
{
    if s.len() == 0 {
        s
    } else {
        insert_region(sort_regions(s.drop_last()), s.last())
    }
}

/// The blocks of the old and the new side, each sorted by first line.
pub open spec fn block_regions_spec(
    cs: Seq<ChangeView>,
    old_f: Option<Seq<char>>,
    new_f: Option<Seq<char>>,
    selected: int,
) -> (Seq<RegionView>, Seq<RegionView>) {
    let r = regions_from(cs, old_f, new_f, selected);
    (sort_regions(r.0), sort_regions(r.1))
}

proof fn lemma_insert_region_at(s: Seq<RegionView>, x: RegionView, j: int)
    requires
        0 <= j <= s.len(),
        forall|k: int| j <= k < s.len() ==> x.start_line < (#[trigger] s[k]).start_line,
        j > 0 ==> !(x.start_line < s[j - 1].start_line),
    ensures
        insert_region(s, x) == s.insert(j, x),
    decreases s.len(),
{
    if s.len() == j {
        if s.len() == 0 {
            assert(s.insert(j, x) =~= seq![x]);
        } else {
            assert(s.insert(j, x) =~= s.push(x));
        }
    } else {
        assert(x.start_line < s[s.len() - 1].start_line);
        lemma_insert_region_at(s.drop_last(), x, j);
        assert(s.drop_last().insert(j, x).push(s.last()) =~= s.insert(j, x));
    }
}

/// Inserts a region into a list sorted by first line, after the regions
/// that do not start after it.
fn insert_sorted_region(v: &mut Vec<BlockRegion>, x: BlockRegion)
    ensures
        regions_view(final(v)@) == insert_region(regions_view(old(v)@), x@),
{
    let ghost sv = regions_view(v@);
    let mut j: usize = v.len();
    loop
        invariant
            j <= v@.len(),
            sv == regions_view(v@),
            forall|k: int| j <= k < sv.len() ==> x@.start_line < (#[trigger] sv[k]).start_line,
        ensures
            j <= sv.len(),
            forall|k: int| j <= k < sv.len() ==> x@.start_line < (#[trigger] sv[k]).start_line,
            j > 0 ==> !(x@.start_line < sv[j - 1].start_line),
        decreases j,
    {
        if j == 0 {
            break;
        }
        assert(sv[j - 1] == v@[j - 1]@);
        if !(x.start_line < v[j - 1].start_line) {
            break;
        }
        j = j - 1;
    }
    proof {
        lemma_insert_region_at(sv, x@, j as int);
    }
    let ghost xv = x@;
    v.insert(j, x);
    proof {
        assert(regions_view(v@) =~= sv.insert(j as int, xv));
    }
}

fn same_path(a: &String, b: &Option<String>) -> (r: bool)
    ensures
        r == (match b {
            Some(f) => path_parts(a@) == path_parts(f@),
            None => false,
        }),
{
    match b {
        Some(f) => {
            let pa = path_parts_of(a);
            let pb = path_parts_of(f);
            parts_equal(&pa, &pb)
        },
        None => false,
    }
}

pub open spec fn opt_str_view(o: Option<String>) -> Option<Seq<char>> {
    match o {
        Some(s) => Some(s@),
        None => None,
    }
}

/// The blocks of the old and of the new file shown: one for each side of
/// each change whose symbol lies in that file, coloured in turn from the
/// palette, each side sorted by first line.
pub fn build_block_regions(
    changes: &[SemanticChange],
    old_file: &Option<String>,
    new_file: &Option<String>,
    selected_idx: usize,
) -> (r: (Vec<BlockRegion>, Vec<BlockRegion>))
    ensures
        (regions_view(r.0@), regions_view(r.1@)) == block_regions_spec(
            crate::diff::changes_view(changes@),
            opt_str_view(*old_file),
            opt_str_view(*new_file),
            selected_idx as int,
        ),
        regions_wf(regions_view(r.0@)),
        regions_wf(regions_view(r.1@)),
{
    let ghost cv = crate::diff::changes_view(changes@);
    let ghost of = opt_str_view(*old_file);
    let ghost nf = opt_str_view(*new_file);
    let mut old_regions: Vec<BlockRegion> = Vec::new();
    let mut new_regions: Vec<BlockRegion> = Vec::new();
    let mut counter: usize = 0;
    let mut i: usize = 0;
    proof {
        assert(cv.take(0) =~= Seq::<ChangeView>::empty());
        assert(regions_view(old_regions@) =~= Seq::<RegionView>::empty());
        assert(regions_view(new_regions@) =~= Seq::<RegionView>::empty());
    }
    while i < changes.len()
        invariant
            i <= changes@.len(),
            cv == crate::diff::changes_view(changes@),
            of == opt_str_view(*old_file),
            nf == opt_str_view(*new_file),
            regions_view(old_regions@) == sort_regions(regions_from(cv.take(i as int), of, nf, selected_idx as int).0),
            regions_view(new_regions@) == sort_regions(regions_from(cv.take(i as int), of, nf, selected_idx as int).1),
            counter == regions_from(cv.take(i as int), of, nf, selected_idx as int).2,
            counter <= i,
            regions_wf(regions_view(old_regions@)),
            regions_wf(regions_view(new_regions@)),
        decreases changes.len() - i,
    {
        let change = &changes[i];
        proof {
            assert(cv.take(i + 1).drop_last() =~= cv.take(i as int));
            assert(cv.take(i + 1).last() == change@);
        }
        let touches_old = match &change.old_symbol {
            Some(s) => same_path(&s.file_path, old_file),
            None => false,
        };
        let touches_new = match &change.new_symbol {
            Some(s) => same_path(&s.file_path, new_file),
            None => false,
        };
        assert(touches_old == touches(change@.old_symbol, of));
        assert(touches_new == touches(change@.new_symbol, nf));
        let ghost prev = regions_from(cv.take(i as int), of, nf, selected_idx as int);
        let ghost next = regions_from(cv.take(i + 1), of, nf, selected_idx as int);
        if touches_old || touches_new {
            let color_idx = counter % BLOCK_COLOR_COUNT;
            let is_selected = i == selected_idx;
            let (old_changed, new_changed) = compute_changed_lines(change);
            let kind = classify_block_kind(&change.kind);
            let old_label = build_label(change, kind, true);
            let new_label = build_label(change, kind, false);
            if touches_old {
                match &change.old_symbol {
                    Some(sym) => {
                        let ghost before = regions_view(old_regions@);
                        let reg = BlockRegion {
                            start_line: sym.line_range.0,
                            end_line: sym.line_range.1,
                            color_idx,
                            is_selected,
                            changed_lines: old_changed,
                            label: old_label,
                        };
                        proof {
                            assert(reg@.changed == changed_lines_spec(change@).0);
                            assert(next.0 == prev.0.push(reg@));
                            assert(prev.0.push(reg@).drop_last() =~= prev.0);
                        }
                        insert_sorted_region(&mut old_regions, reg);
                        proof {
                            lemma_insert_region_wf(before, reg@);
                        }
                    },
                    None => {},
                }
            }
            if touches_new {
                match &change.new_symbol {
                    Some(sym) => {
                        let ghost before = regions_view(new_regions@);
                        let reg = BlockRegion {
                            start_line: sym.line_range.0,
                            end_line: sym.line_range.1,
                            color_idx,
                            is_selected,
                            changed_lines: new_changed,
                            label: new_label,
                        };
                        proof {
                            assert(reg@.changed == changed_lines_spec(change@).1);
                            assert(next.1 == prev.1.push(reg@));
                            assert(prev.1.push(reg@).drop_last() =~= prev.1);
                        }
                        insert_sorted_region(&mut new_regions, reg);
                        proof {
                            lemma_insert_region_wf(before, reg@);
                        }
                    },
                    None => {},
                }
            }
            counter = counter + 1;
        }
        i = i + 1;
    }
    proof {
        assert(cv.take(changes@.len() as int) =~= cv);
    }
    (old_regions, new_regions)
}

proof fn lemma_insert_region_wf(s: Seq<RegionView>, x: RegionView)
    requires
        regions_wf(s),
        x.color_idx < BLOCK_COLOR_COUNT,
    ensures
        regions_wf(insert_region(s, x)),
    decreases s.len(),
{
    if s.len() > 0 && x.start_line < s.last().start_line {
        assert(regions_wf(s.drop_last()));
        lemma_insert_region_wf(s.drop_last(), x);
    }
}

/// The region that covers a line: the first one, in order, whose lines
/// include it.
pub open spec fn first_cover(regs: Seq<RegionView>, line: int) -> Option<int>
    decreases regs.len(),
{
    if regs.len() == 0 {
        None
    } else {
        match first_cover(regs.drop_last(), line) {
            Some(i) => Some(i),
            None => if regs.last().start_line <= line && line <= regs.last().end_line {
                Some(regs.len() - 1)
            } else {
                None
            },
        }
    }
}

proof fn lemma_first_cover_prefix(regs: Seq<RegionView>, k: int, line: int)
    requires
        0 <= k <= regs.len(),
        first_cover(regs.take(k), line) is Some,
    ensures
        first_cover(regs, line) == first_cover(regs.take(k), line),
    decreases regs.len() - k,
{
    if k < regs.len() {
        assert(regs.take(k + 1).drop_last() =~= regs.take(k));
        lemma_first_cover_prefix(regs, k + 1, line);
    } else {
        assert(regs.take(k) =~= regs);
    }
}

proof fn lemma_first_cover_range(regs: Seq<RegionView>, line: int)
    ensures
        first_cover(regs, line) matches Some(i) ==> 0 <= i < regs.len() && regs[i].start_line <= line
            <= regs[i].end_line,
    decreases regs.len(),
{
    if regs.len() > 0 {
        lemma_first_cover_range(regs.drop_last(), line);
    }
}

/// The index of the region that covers a line, if any.
pub fn region_at(regions: &Vec<BlockRegion>, line: usize) -> (r: Option<usize>)
    ensures
        match r {
            Some(i) => first_cover(regions_view(regions@), line as int) == Some(i as int),
            None => first_cover(regions_view(regions@), line as int) is None,
        },
        r matches Some(i) ==> i < regions@.len(),
{
    let ghost rv = regions_view(regions@);
    let mut i: usize = 0;
    proof {
        assert(rv.take(0) =~= Seq::<RegionView>::empty());
    }
    while i < regions.len()
        invariant
            i <= regions@.len(),
            rv == regions_view(regions@),
            first_cover(rv.take(i as int), line as int) is None,
        decreases regions.len() - i,
    {
        proof {
            assert(rv.take(i + 1).drop_last() =~= rv.take(i as int));
            assert(rv.take(i + 1).last() == regions@[i as int]@);
        }
        if regions[i].start_line <= line && line <= regions[i].end_line {
            proof {
                lemma_first_cover_prefix(rv, i + 1, line as int);
            }
            return Some(i);
        }
        i = i + 1;
    }
    proof {
        assert(rv.take(regions@.len() as int) =~= rv);
    }
    None
}

// ------------------------------------------------------------ line drawing

/// The style of a block's frame: its colour, bold when selected.
pub open spec fn frame_style(c: Color, selected: bool) -> TextStyle {
    if selected {
        TextStyle::fg_bold_spec(c)
    } else {
        TextStyle::fg_spec(c)
    }
}

fn frame_style_of(c: Color, selected: bool) -> (r: TextStyle)
    ensures
        r == frame_style(c, selected),
{
    if selected {
        TextStyle::fg_bold(c)
    } else {
        TextStyle::fg(c)
    }
}

pub open spec fn sat_sub(a: int, b: int) -> int {
    if a >= b {
        a - b
    } else {
        0
    }
}

pub open spec fn repeat_char(c: char, n: nat) -> Seq<char> {
    Seq::new(n, |i: int| c)
}

fn push_repeat(s: &mut String, c: char, n: usize)
    ensures
        final(s)@ == old(s)@ + repeat_char(c, n as nat),
{
    let ghost start = s@;
    let mut i: usize = 0;
    while i < n
        invariant
            i <= n,
            s@ == start + repeat_char(c, i as nat),
        decreases n - i,
    {
        push_char(s, c);
        i = i + 1;
        assert(s@ =~= start + repeat_char(c, i as nat));
    }
}

/// The top of a block's frame: its label, cut to fit, and a rule up to
/// the width.
pub open spec fn border_top_spec(color: Color, label: Seq<char>, width: usize, selected: bool) -> LineSpans {
    let max_label = sat_sub(width as int, 15);
    let trimmed = if label.len() <= max_label {
        label
    } else {
        label.take(max_label)
    };
    let fill = sat_sub(width as int, trimmed.len() as int + 6);
    seq![("┌─ "@ + trimmed + repeat_char('─', fill as nat) + " ─┐"@, frame_style(color, selected))]
}

pub fn render_border_top(color: Color, label: &str, width: usize, is_selected: bool) -> (r:
    StyledLine)
    ensures
        r@ == border_top_spec(color, label@, width, is_selected),
{
    let chars = chars_of(label);
    let max_label: usize = if width >= 15 {
        width - 15
    } else {
        0
    };
    let keep: usize = if chars.len() <= max_label {
        chars.len()
    } else {
        max_label
    };
    let mut s = String::new();
    push_str(&mut s, "┌─ ");
    let mut i: usize = 0;
    while i < keep
        invariant
            i <= keep,
            keep <= chars@.len(),
            s@ == "┌─ "@ + chars@.take(i as int),
        decreases keep - i,
    {
        push_char(&mut s, chars[i]);
        i = i + 1;
        assert(s@ =~= "┌─ "@ + chars@.take(i as int));
    }
    let fill: usize = if width >= keep + 6 {
        width - (keep + 6)
    } else {
        0
    };
    push_repeat(&mut s, '─', fill);
    push_str(&mut s, " ─┐");
    proof {
        let trimmed = if label@.len() <= max_label as int {
            label@
        } else {
            label@.take(max_label as int)
        };
        assert(chars@.take(keep as int) =~= trimmed);
        assert(Seq::<char>::empty() + "┌─ "@ =~= "┌─ "@);
    }
    StyledLine::single(s, frame_style_of(color, is_selected))
}

/// The bottom of a block's frame.
pub open spec fn border_bottom_spec(color: Color, width: usize, selected: bool) -> LineSpans {
    seq![("└"@ + repeat_char('─', sat_sub(width as int, 2) as nat) + "┘"@, frame_style(color, selected))]
}

pub fn render_border_bottom(color: Color, width: usize, is_selected: bool) -> (r: StyledLine)
    ensures
        r@ == border_bottom_spec(color, width, is_selected),
{
    let mut s = String::new();
    push_str(&mut s, "└");
    let fill: usize = if width >= 2 {
        width - 2
    } else {
        0
    };
    push_repeat(&mut s, '─', fill);
    push_str(&mut s, "┘");
    proof {
        assert(Seq::<char>::empty() + "└"@ =~= "└"@);
    }
    StyledLine::single(s, frame_style_of(color, is_selected))
}

/// An empty line on a dark background, opposite a line of the other side.
pub open spec fn padding_spec() -> LineSpans {
    seq![(Seq::empty(), TextStyle { fg: None, bg: Some(Color::Rgb(20, 20, 30)), bold: false })]
}

pub fn padding_line() -> (r: StyledLine)
    ensures
        r@ == padding_spec(),
{
    StyledLine::single(String::new(), TextStyle { fg: None, bg: Some(Color::Rgb(20, 20, 30)), bold: false })
}

/// Tabs expanded to the next multiple of four columns, counting columns
/// from `col`.
pub open spec fn expand_from(s: Seq<char>, col: nat) -> Seq<char>
    decreases s.len(),
{
    if s.len() == 0 {
        Seq::empty()
    } else if s[0] == '\t' {
        let k = (4 - col % 4) as nat;
        repeat_char(' ', k) + expand_from(s.drop_first(), col + k)
    } else {
        seq![s[0]] + expand_from(s.drop_first(), col + 1)
    }
}

/// The text with each tab expanded to the next multiple of four columns.
pub fn expand_tabs(text: &[char]) -> (r: Vec<char>)
    ensures
        r@ == expand_from(text@, 0),
{
    let mut out: Vec<char> = Vec::new();
    let mut col4: usize = 0;
    let ghost mut col: nat = 0;
    let mut i: usize = 0;
    proof {
        assert(text@.skip(0) =~= text@);
        assert(out@ + expand_from(text@.skip(0), col) =~= expand_from(text@, 0));
    }
    while i < text.len()
        invariant
            i <= text@.len(),
            col4 == col % 4,
            out@ + expand_from(text@.skip(i as int), col) == expand_from(text@, 0),
        decreases text.len() - i,
    {
        let ghost rest = text@.skip(i as int);
        proof {
            assert(rest.drop_first() =~= text@.skip(i + 1));
            assert(rest[0] == text@[i as int]);
        }
        let ghost before = out@;
        if text[i] == '\t' {
            let k: usize = 4 - col4;
            let mut j: usize = 0;
            while j < k
                invariant
                    j <= k,
                    k <= 4,
                    out@ == before + repeat_char(' ', j as nat),
                decreases k - j,
            {
                out.push(' ');
                j = j + 1;
                assert(out@ =~= before + repeat_char(' ', j as nat));
            }
            proof {
                assert(k == (4 - col % 4) as nat);
                assert(before + expand_from(rest, col) =~= out@ + expand_from(text@.skip(i + 1), (col + k) as nat));
                col = (col + k) as nat;
                assert((col4 + k) % 4 == 0);
            }
            col4 = 0;
        } else {
            out.push(text[i]);
            proof {
                assert(before + expand_from(rest, col) =~= out@ + expand_from(text@.skip(i + 1), col + 1));
                col = col + 1;
            }
            col4 = if col4 == 3 {
                0
            } else {
                col4 + 1
            };
        }
        i = i + 1;
    }
    proof {
        assert(text@.skip(text@.len() as int) =~= Seq::<char>::empty());
        assert(out@ + Seq::<char>::empty() =~= out@);
    }
    out
}

/// A block's colour, whether the line counts as changed, and whether the
/// block is selected.
pub type RegionInfo = (Color, bool, bool);

/// A line of one file: its number, its text (tabs expanded, scrolled right
/// by `h` characters), framed in its block's colour when it lies in one.
pub open spec fn content_line_spec(num: usize, text: Seq<char>, info: Option<RegionInfo>, h: usize) -> LineSpans {
    let ex = expand_from(text, 0);
    let shown = if h < ex.len() {
        ex.skip(h as int)
    } else {
        Seq::empty()
    };
    let number = padded_decimal(num as nat, 4) + " "@;
    match info {
        Some(i) => seq![
            ("│"@, frame_style(i.0, i.2)),
            (number, if i.1 {
                TextStyle::fg_bold_spec(i.0)
            } else {
                TextStyle::fg_spec(darken_color(i.0, 50))
            }),
            (shown, if i.1 {
                TextStyle { fg: Some(Color::White), bg: Some(color_to_bg(i.0)), bold: true }
            } else {
                TextStyle::fg_spec(Color::Rgb(180, 180, 180))
            }),
        ],
        None => seq![
            (" "@, TextStyle::plain_spec()),
            (number, TextStyle::fg_spec(Color::DarkGray)),
            (shown, TextStyle::fg_spec(Color::Gray)),
        ],
    }
}

pub fn render_content_line(line_num: usize, text: &[char], info: Option<RegionInfo>, h_scroll: usize) -> (r: StyledLine)
    ensures
        r@ == content_line_spec(line_num, text@, info, h_scroll),
{
    let ex = expand_tabs(text);
    let mut shown: Vec<char> = Vec::new();
    if h_scroll < ex.len() {
        let mut i: usize = h_scroll;
        proof {
            assert(shown@ =~= ex@.subrange(h_scroll as int, h_scroll as int));
        }
        while i < ex.len()
            invariant
                h_scroll <= i <= ex@.len(),
                shown@ == ex@.subrange(h_scroll as int, i as int),
            decreases ex.len() - i,
        {
            shown.push(ex[i]);
            i = i + 1;
            assert(shown@ =~= ex@.subrange(h_scroll as int, i as int));
        }
        proof {
            assert(ex@.subrange(h_scroll as int, ex@.len() as int) =~= ex@.skip(h_scroll as int));
        }
    } else {
        proof {
            assert(shown@ =~= Seq::<char>::empty());
        }
    }
    let shown_text = string_from_chars(shown.as_slice());
    let mut number = padded_usize(line_num, 4);
    push_str(&mut number, " ");
    let mut spans: Vec<StyledSpan> = Vec::new();
    match info {
        Some((color, changed, selected)) => {
            spans.push(StyledSpan::from_str("│", frame_style_of(color, selected)));
            let num_style = if changed {
                TextStyle::fg_bold(color)
            } else {
                TextStyle::fg(darken(color, 50))
            };
            spans.push(StyledSpan::new(number, num_style));
            let text_style = if changed {
                TextStyle { fg: Some(Color::White), bg: Some(to_bg(color)), bold: true }
            } else {
                TextStyle::fg(Color::Rgb(180, 180, 180))
            };
            spans.push(StyledSpan::new(shown_text, text_style));
        },
        None => {
            spans.push(StyledSpan::from_str(" ", TextStyle::plain()));
            spans.push(StyledSpan::new(number, TextStyle::fg(Color::DarkGray)));
            spans.push(StyledSpan::new(shown_text, TextStyle::fg(Color::Gray)));
        },
    }
    let r = StyledLine::from_spans(spans);
    proof {
        assert(r@ =~= content_line_spec(line_num, text@, info, h_scroll));
    }
    r
}

// ------------------------------------------------------------- the rows

/// The region a line lies in, as its colour and flags; `force_changed`
/// marks the line changed whatever the region says.
pub open spec fn info_for(regs: Seq<RegionView>, line: usize, force_changed: bool) -> Option<RegionInfo> {
    match first_cover(regs, line as int) {
        Some(ri) => Some(
            (
                block_color(regs[ri].color_idx as int),
                force_changed || regs[ri].changed.contains(line),
                regs[ri].is_selected,
            ),
        ),
        None => None,
    }
}

fn region_info(regions: &Vec<BlockRegion>, line: usize, force_changed: bool) -> (r: Option<RegionInfo>)
    requires
        regions_wf(regions_view(regions@)),
    ensures
        r == info_for(regions_view(regions@), line, force_changed),
{
    match region_at(regions, line) {
        Some(ri) => {
            let reg = &regions[ri];
            assert(regions_view(regions@)[ri as int] == reg@);
            let changed = force_changed || reg.changed_lines.contains(line);
            Some((block_color_at(reg.color_idx), changed, reg.is_selected))
        },
        None => None,
    }
}

/// The text of line `l` (1-based), or nothing past the end.
pub open spec fn line_text(lines: Seq<Seq<char>>, l: usize) -> Seq<char> {
    if 1 <= l && l <= lines.len() {
        lines[l - 1]
    } else {
        Seq::empty()
    }
}

/// What the rows are drawn from: the lines of both texts, their blocks,
/// the frame width and the horizontal scroll.
pub struct RenderCtx {
    pub old_lines: Seq<Seq<char>>,
    pub new_lines: Seq<Seq<char>>,
    pub old_regs: Seq<RegionView>,
    pub new_regs: Seq<RegionView>,
    pub width: usize,
    pub h: usize,
}

/// The lines drawn so far on each side, and the blocks whose top and
/// bottom frames were drawn.
pub struct SideState {
    pub old: Seq<LineSpans>,
    pub new: Seq<LineSpans>,
    pub old_top: Set<int>,
    pub new_top: Set<int>,
    pub old_bottom: Set<int>,
    pub new_bottom: Set<int>,
}

pub open spec fn row_lines(row: AlignedRow) -> (Option<usize>, Option<usize>) {
    match row {
        AlignedRow::Both { old_line, new_line } => (Some(old_line), Some(new_line)),
        AlignedRow::OldOnly { old_line } => (Some(old_line), None),
        AlignedRow::NewOnly { new_line } => (None, Some(new_line)),
    }
}

/// The block whose frame starts (`top`) or ends at a line, unless that
/// frame was drawn already.
pub open spec fn needs_frame(regs: Seq<RegionView>, ln: Option<usize>, drawn: Set<int>, top: bool) -> Option<int> {
    match ln {
        Some(l) => match first_cover(regs, l as int) {
            Some(ri) => if (if top {
                regs[ri].start_line == l
            } else {
                regs[ri].end_line == l
            }) && !drawn.contains(ri) {
                Some(ri)
            } else {
                None
            },
            None => None,
        },
        None => None,
    }
}

pub open spec fn frame_line(regs: Seq<RegionView>, ri: Option<int>, width: usize, top: bool) -> Option<LineSpans> {
    match ri {
        Some(i) => Some(
            if top {
                border_top_spec(
                    block_color(regs[i].color_idx as int),
                    regs[i].label,
                    width,
                    regs[i].is_selected,
                )
            } else {
                border_bottom_spec(block_color(regs[i].color_idx as int), width, regs[i].is_selected)
            },
        ),
        None => None,
    }
}

/// Frame lines for both sides: none when neither side has one, else each
/// side's frame or padding.
pub open spec fn frame_pair(a: Option<LineSpans>, b: Option<LineSpans>) -> (Seq<LineSpans>, Seq<LineSpans>) {
    if a is None && b is None {
        (Seq::empty(), Seq::empty())
    } else {
        (
            seq![
                match a {
                    Some(l) => l,
                    None => padding_spec(),
                },
            ],
            seq![
                match b {
                    Some(l) => l,
                    None => padding_spec(),
                },
            ],
        )
    }
}

pub open spec fn content_pair(row: AlignedRow, ctx: RenderCtx) -> (LineSpans, LineSpans) {
    match row {
        AlignedRow::Both { old_line, new_line } => (
            content_line_spec(old_line, line_text(ctx.old_lines, old_line), info_for(ctx.old_regs, old_line, false), ctx.h),
            content_line_spec(new_line, line_text(ctx.new_lines, new_line), info_for(ctx.new_regs, new_line, false), ctx.h),
        ),
        AlignedRow::OldOnly { old_line } => (
            content_line_spec(old_line, line_text(ctx.old_lines, old_line), info_for(ctx.old_regs, old_line, true), ctx.h),
            padding_spec(),
        ),
        AlignedRow::NewOnly { new_line } => (
            padding_spec(),
            content_line_spec(new_line, line_text(ctx.new_lines, new_line), info_for(ctx.new_regs, new_line, true), ctx.h),
        ),
    }
}

pub open spec fn add_opt(s: Set<int>, o: Option<int>) -> Set<int> {
    match o {
        Some(i) => s.insert(i),
        None => s,
    }
}

/// One row drawn: the tops of blocks that start there, the line itself,
/// the bottoms of blocks that end there.
pub open spec fn render_step(st: SideState, row: AlignedRow, ctx: RenderCtx) -> SideState {
    let lns = row_lines(row);
    let ot = needs_frame(ctx.old_regs, lns.0, st.old_top, true);
    let nt = needs_frame(ctx.new_regs, lns.1, st.new_top, true);
    let tops = frame_pair(frame_line(ctx.old_regs, ot, ctx.width, true), frame_line(ctx.new_regs, nt, ctx.width, true));
    let content = content_pair(row, ctx);
    let ob = needs_frame(ctx.old_regs, lns.0, st.old_bottom, false);
    let nb = needs_frame(ctx.new_regs, lns.1, st.new_bottom, false);
    let bottoms = frame_pair(frame_line(ctx.old_regs, ob, ctx.width, false), frame_line(ctx.new_regs, nb, ctx.width, false));
    SideState {
        old: st.old + tops.0 + seq![content.0] + bottoms.0,
        new: st.new + tops.1 + seq![content.1] + bottoms.1,
        old_top: add_opt(st.old_top, ot),
        new_top: add_opt(st.new_top, nt),
        old_bottom: add_opt(st.old_bottom, ob),
        new_bottom: add_opt(st.new_bottom, nb),
    }
}

pub open spec fn render_spec(rows: Seq<AlignedRow>, ctx: RenderCtx) -> SideState
    decreases rows.len(),
{
    if rows.len() == 0 {
        SideState {
            old: Seq::empty(),
            new: Seq::empty(),
            old_top: Set::empty(),
            new_top: Set::empty(),
            old_bottom: Set::empty(),
            new_bottom: Set::empty(),
        }
    } else {
        render_step(render_spec(rows.drop_last(), ctx), rows.last(), ctx)
    }
}

/// Flags that record which blocks' frames were drawn.
pub open spec fn flags_match(flags: Seq<bool>, s: Set<int>) -> bool {
    &&& forall|i: int| 0 <= i < flags.len() ==> flags[i] == s.contains(i)
    &&& forall|i: int| s.contains(i) ==> 0 <= i < flags.len()
}

fn frame_needed(regions: &Vec<BlockRegion>, ln: Option<usize>, drawn: &Vec<bool>, top: bool) -> (r: Option<usize>)
    requires
        drawn@.len() == regions@.len(),
    ensures
        forall|s: Set<int>| #[trigger] flags_match(drawn@, s) ==> match r {
            Some(i) => needs_frame(regions_view(regions@), ln, s, top) == Some(i as int),
            None => needs_frame(regions_view(regions@), ln, s, top) is None,
        },
        r matches Some(i) ==> i < regions@.len(),
{
    match ln {
        Some(l) => match region_at(regions, l) {
            Some(ri) => {
                let edge = if top {
                    regions[ri].start_line
                } else {
                    regions[ri].end_line
                };
                assert(regions_view(regions@)[ri as int] == regions@[ri as int]@);
                if edge == l && !drawn[ri] {
                    Some(ri)
                } else {
                    None
                }
            },
            None => None,
        },
        None => None,
    }
}

fn frame_line_of(regions: &Vec<BlockRegion>, ri: Option<usize>, width: usize, top: bool) -> (r: Option<StyledLine>)
    requires
        regions_wf(regions_view(regions@)),
        ri matches Some(i) ==> i < regions@.len(),
    ensures
        match r {
            Some(l) => frame_line(regions_view(regions@), opt_int(ri), width, top) == Some(l@),
            None => frame_line(regions_view(regions@), opt_int(ri), width, top) is None,
        },
{
    match ri {
        Some(i) => {
            let reg = &regions[i];
            assert(regions_view(regions@)[i as int] == reg@);
            let color = block_color_at(reg.color_idx);
            if top {
                Some(render_border_top(color, reg.label.as_str(), width, reg.is_selected))
            } else {
                Some(render_border_bottom(color, width, reg.is_selected))
            }
        },
        None => None,
    }
}

pub open spec fn opt_int(o: Option<usize>) -> Option<int> {
    match o {
        Some(i) => Some(i as int),
        None => None,
    }
}

pub open spec fn opt_line(o: Option<StyledLine>) -> Option<LineSpans> {
    match o {
        Some(l) => Some(l@),
        None => None,
    }
}

fn push_frame_pair(old_out: &mut Vec<StyledLine>, new_out: &mut Vec<StyledLine>, a: Option<StyledLine>, b: Option<StyledLine>)
    ensures
        lines_view(final(old_out)@) == lines_view(old(old_out)@) + frame_pair(opt_line(a), opt_line(b)).0,
        lines_view(final(new_out)@) == lines_view(old(new_out)@) + frame_pair(opt_line(a), opt_line(b)).1,
{
    let ghost ov = lines_view(old_out@);
    let ghost nv = lines_view(new_out@);
    let ghost av = opt_line(a);
    let ghost bv = opt_line(b);
    if a.is_none() && b.is_none() {
        proof {
            assert(ov + Seq::<LineSpans>::empty() =~= ov);
            assert(nv + Seq::<LineSpans>::empty() =~= nv);
        }
        return;
    }
    let la = match a {
        Some(l) => l,
        None => padding_line(),
    };
    let lb = match b {
        Some(l) => l,
        None => padding_line(),
    };
    let ghost lav = la@;
    let ghost lbv = lb@;
    old_out.push(la);
    new_out.push(lb);
    proof {
        assert(lines_view(old_out@) =~= ov + seq![lav]);
        assert(lines_view(new_out@) =~= nv + seq![lbv]);
    }
}

/// Draws the aligned rows on both sides: each row's lines, framed in the
/// colour of the block they lie in, with a frame top before the first line
/// of a block and a frame bottom after its last, and padding opposite a
/// line that has no counterpart.
pub fn render_aligned_rows(
    rows: &[AlignedRow],
    old_text: &str,
    new_text: &str,
    old_regions: &Vec<BlockRegion>,
    new_regions: &Vec<BlockRegion>,
    border_width: usize,
    h_scroll: usize,
) -> (r: (Vec<StyledLine>, Vec<StyledLine>))
    requires
        regions_wf(regions_view(old_regions@)),
        regions_wf(regions_view(new_regions@)),
    ensures
        ({
            let st = render_spec(
                rows@,
                RenderCtx {
                    old_lines: text_lines(old_text@),
                    new_lines: text_lines(new_text@),
                    old_regs: regions_view(old_regions@),
                    new_regs: regions_view(new_regions@),
                    width: border_width,
                    h: h_scroll,
                },
            );
            lines_view(r.0@) == st.old && lines_view(r.1@) == st.new
        }),
{
    let old_chars = chars_of(old_text);
    let new_chars = chars_of(new_text);
    let old_file_lines = split_lines(&old_chars);
    let new_file_lines = split_lines(&new_chars);
    let ghost ctx = RenderCtx {
        old_lines: text_lines(old_text@),
        new_lines: text_lines(new_text@),
        old_regs: regions_view(old_regions@),
        new_regs: regions_view(new_regions@),
        width: border_width,
        h: h_scroll,
    };
    let mut old_result: Vec<StyledLine> = Vec::new();
    let mut new_result: Vec<StyledLine> = Vec::new();
    let mut old_top: Vec<bool> = Vec::new();
    let mut old_bottom: Vec<bool> = Vec::new();
    let mut k: usize = 0;
    while k < old_regions.len()
        invariant
            k <= old_regions@.len(),
            old_top@ == Seq::new(k as nat, |i: int| false),
            old_bottom@ == Seq::new(k as nat, |i: int| false),
        decreases old_regions.len() - k,
    {
        old_top.push(false);
        old_bottom.push(false);
        k = k + 1;
        assert(old_top@ =~= Seq::new(k as nat, |i: int| false));
        assert(old_bottom@ =~= Seq::new(k as nat, |i: int| false));
    }
    let mut new_top: Vec<bool> = Vec::new();
    let mut new_bottom: Vec<bool> = Vec::new();
    k = 0;
    while k < new_regions.len()
        invariant
            k <= new_regions@.len(),
            new_top@ == Seq::new(k as nat, |i: int| false),
            new_bottom@ == Seq::new(k as nat, |i: int| false),
        decreases new_regions.len() - k,
    {
        new_top.push(false);
        new_bottom.push(false);
        k = k + 1;
        assert(new_top@ =~= Seq::new(k as nat, |i: int| false));
        assert(new_bottom@ =~= Seq::new(k as nat, |i: int| false));
    }
    proof {
        assert(rows@.take(0) =~= Seq::<AlignedRow>::empty());
        assert(lines_view(old_result@) =~= Seq::<LineSpans>::empty());
        assert(lines_view(new_result@) =~= Seq::<LineSpans>::empty());
    }
    let mut i: usize = 0;
    while i < rows.len()
        invariant
            i <= rows@.len(),
            ctx == (RenderCtx {
                old_lines: text_lines(old_text@),
                new_lines: text_lines(new_text@),
                old_regs: regions_view(old_regions@),
                new_regs: regions_view(new_regions@),
                width: border_width,
                h: h_scroll,
            }),
            char_lines(old_file_lines@) == text_lines(old_text@),
            char_lines(new_file_lines@) == text_lines(new_text@),
            regions_wf(regions_view(old_regions@)),
            regions_wf(regions_view(new_regions@)),
            old_top@.len() == old_regions@.len(),
            old_bottom@.len() == old_regions@.len(),
            new_top@.len() == new_regions@.len(),
            new_bottom@.len() == new_regions@.len(),
            ({
                let st = render_spec(rows@.take(i as int), ctx);
                &&& lines_view(old_result@) == st.old
                &&& lines_view(new_result@) == st.new
                &&& flags_match(old_top@, st.old_top)
                &&& flags_match(new_top@, st.new_top)
                &&& flags_match(old_bottom@, st.old_bottom)
                &&& flags_match(new_bottom@, st.new_bottom)
            }),
        decreases rows.len() - i,
    {
        let row = rows[i];
        let ghost st = render_spec(rows@.take(i as int), ctx);
        proof {
            assert(rows@.take(i + 1).drop_last() =~= rows@.take(i as int));
            assert(rows@.take(i + 1).last() == row);
        }
        let (old_ln, new_ln): (Option<usize>, Option<usize>) = match row {
            AlignedRow::Both { old_line, new_line } => (Some(old_line), Some(new_line)),
            AlignedRow::OldOnly { old_line } => (Some(old_line), None),
            AlignedRow::NewOnly { new_line } => (None, Some(new_line)),
        };
        // frame tops
        let ot = frame_needed(old_regions, old_ln, &old_top, true);
        let nt = frame_needed(new_regions, new_ln, &new_top, true);
        proof {
            assert(flags_match(old_top@, st.old_top));
            assert(flags_match(new_top@, st.new_top));
        }
        let ol = frame_line_of(old_regions, ot, border_width, true);
        let nl = frame_line_of(new_regions, nt, border_width, true);
        push_frame_pair(&mut old_result, &mut new_result, ol, nl);
        let ghost top_sets = (add_opt(st.old_top, opt_int(ot)), add_opt(st.new_top, opt_int(nt)));
        match ot {
            Some(x) => {
                old_top.set(x, true);
            },
            None => {},
        }
        match nt {
            Some(x) => {
                new_top.set(x, true);
            },
            None => {},
        }
        proof {
            assert(flags_match(old_top@, top_sets.0));
            assert(flags_match(new_top@, top_sets.1));
        }
        // the line itself
        let ghost cp = content_pair(row, ctx);
        let ghost ov = lines_view(old_result@);
        let ghost nv = lines_view(new_result@);
        match row {
            AlignedRow::Both { old_line, new_line } => {
                let oi = region_info(old_regions, old_line, false);
                let ni = region_info(new_regions, new_line, false);
                let ot_text = file_line(&old_file_lines, old_line);
                let nt_text = file_line(&new_file_lines, new_line);
                old_result.push(render_content_line(old_line, ot_text, oi, h_scroll));
                new_result.push(render_content_line(new_line, nt_text, ni, h_scroll));
            },
            AlignedRow::OldOnly { old_line } => {
                let oi = region_info(old_regions, old_line, true);
                let ot_text = file_line(&old_file_lines, old_line);
                old_result.push(render_content_line(old_line, ot_text, oi, h_scroll));
                new_result.push(padding_line());
            },
            AlignedRow::NewOnly { new_line } => {
                let ni = region_info(new_regions, new_line, true);
                let nt_text = file_line(&new_file_lines, new_line);
                old_result.push(padding_line());
                new_result.push(render_content_line(new_line, nt_text, ni, h_scroll));
            },
        }
        proof {
            assert(lines_view(old_result@) =~= ov + seq![cp.0]);
            assert(lines_view(new_result@) =~= nv + seq![cp.1]);
        }
        // frame bottoms
        let ob = frame_needed(old_regions, old_ln, &old_bottom, false);
        let nb = frame_needed(new_regions, new_ln, &new_bottom, false);
        proof {
            assert(flags_match(old_bottom@, st.old_bottom));
            assert(flags_match(new_bottom@, st.new_bottom));
        }
        let obl = frame_line_of(old_regions, ob, border_width, false);
        let nbl = frame_line_of(new_regions, nb, border_width, false);
        push_frame_pair(&mut old_result, &mut new_result, obl, nbl);
        let ghost bottom_sets = (add_opt(st.old_bottom, opt_int(ob)), add_opt(st.new_bottom, opt_int(nb)));
        match ob {
            Some(x) => {
                old_bottom.set(x, true);
            },
            None => {},
        }
        match nb {
            Some(x) => {
                new_bottom.set(x, true);
            },
            None => {},
        }
        proof {
            assert(flags_match(old_bottom@, bottom_sets.0));
            assert(flags_match(new_bottom@, bottom_sets.1));
            let next = render_step(st, row, ctx);
            assert(next.old =~= lines_view(old_result@));
            assert(next.new =~= lines_view(new_result@));
        }
        i = i + 1;
    }
    proof {
        assert(rows@.take(rows@.len() as int) =~= rows@);
    }
    (old_result, new_result)
}

fn file_line(lines: &Vec<Vec<char>>, l: usize) -> (r: &[char])
    ensures
        r@ == line_text(char_lines(lines@), l),
{
    if 1 <= l && l <= lines.len() {
        lines[l - 1].as_slice()
    } else {
        proof {
            assert(char_lines(lines@).len() == lines@.len());
        }
        let empty: &[char] = &[];
        assert(empty@ =~= Seq::<char>::empty());
        empty
    }
}

// ------------------------------------------------------------ scrolling

/// A drawn line of a file's text, not a frame line.
pub open spec fn is_content_line(l: LineSpans) -> bool {
    l.len() > 0 && l[0].0.len() > 0 && l[0].0[0] != '┌' && l[0].0[0] != '└'
}

/// From line `i` on, having met `count` text lines: the line before the
/// text line numbered `target` (counting from 0), else the last line.
pub open spec fn scroll_find(vl: Seq<LineSpans>, target: nat, i: int, count: nat) -> int
    decreases vl.len() - i,
{
    if i < 0 || i >= vl.len() {
        sat_sub(vl.len() as int, 1)
    } else if is_content_line(vl[i]) {
        if count == target {
            sat_sub(i, 1)
        } else {
            scroll_find(vl, target, i + 1, count + 1)
        }
    } else {
        scroll_find(vl, target, i + 1, count)
    }
}

/// The first drawn line to show when the view is scrolled `scroll` lines
/// of text down: one line above that text line, so that a frame top just
/// before it stays visible.
pub open spec fn scroll_vline_spec(vl: Seq<LineSpans>, scroll: usize) -> int {
    if scroll == 0 {
        0
    } else {
        scroll_find(vl, scroll as nat, 0, 0)
    }
}

fn is_content_vline(line: &StyledLine) -> (r: bool)
    ensures
        r == is_content_line(line@),
{
    if line.spans.len() == 0 {
        return false;
    }
    let first = chars_of(line.spans[0].text.as_str());
    assert(line@[0] == line.spans@[0]@);
    if first.len() == 0 {
        return false;
    }
    first[0] != '┌' && first[0] != '└'
}

pub fn find_scroll_vline(vlines: &Vec<StyledLine>, file_line_scroll: usize) -> (r: usize)
    ensures
        r as int == scroll_vline_spec(lines_view(vlines@), file_line_scroll),
{
    if file_line_scroll == 0 {
        return 0;
    }
    let ghost vl = lines_view(vlines@);
    assert(scroll_vline_spec(vl, file_line_scroll) == scroll_find(vl, file_line_scroll as nat, 0, 0));
    let mut count: usize = 0;
    let mut i: usize = 0;
    while i < vlines.len()
        invariant
            i <= vlines@.len(),
            vl == lines_view(vlines@),
            file_line_scroll > 0,
            count <= i,
            scroll_find(vl, file_line_scroll as nat, i as int, count as nat) == scroll_find(
                vl,
                file_line_scroll as nat,
                0,
                0,
            ),
        decreases vlines.len() - i,
    {
        assert(vl[i as int] == vlines@[i as int]@);
        if is_content_vline(&vlines[i]) {
            if count == file_line_scroll {
                assert(is_content_line(vl[i as int]));
                assert(scroll_find(vl, file_line_scroll as nat, i as int, count as nat) == sat_sub(
                    i as int,
                    1,
                ));
                let r: usize = if i > 0 {
                    i - 1
                } else {
                    0
                };
                assert(r as int == sat_sub(i as int, 1));
                return r;
            }
            count = count + 1;
        }
        i = i + 1;
    }
    if vlines.len() > 0 {
        vlines.len() - 1
    } else {
        0
    }
}

// ------------------------------------------------------------ the view

/// The line shown past the end of a file.
pub open spec fn tilde_spec() -> LineSpans {
    seq![("~"@, TextStyle::fg_spec(Color::DarkGray))]
}

fn tilde_line() -> (r: StyledLine)
    ensures
        r@ == tilde_spec(),
{
    StyledLine::single(String::from_str("~"), TextStyle::fg(Color::DarkGray))
}

/// `height` drawn lines from `start` on, `~` past the end.
pub open spec fn window_spec(vl: Seq<LineSpans>, start: int, height: nat) -> Seq<LineSpans> {
    Seq::new(height, |k: int| if start + k < vl.len() { vl[start + k] } else { tilde_spec() })
}

fn window(vl: &Vec<StyledLine>, start: usize, height: u16) -> (r: Vec<StyledLine>)
    ensures
        lines_view(r@) == window_spec(lines_view(vl@), start as int, height as nat),
{
    let ghost v = lines_view(vl@);
    let mut out: Vec<StyledLine> = Vec::new();
    let mut k: u16 = 0;
    while k < height
        invariant
            k <= height,
            v == lines_view(vl@),
            lines_view(out@) == window_spec(v, start as int, height as nat).take(k as int),
        decreases height - k,
    {
        let ghost before = lines_view(out@);
        let in_range = start < vl.len() && (k as usize) < vl.len() - start;
        let line = if in_range {
            assert(v[start + k] == vl@[start + k]@);
            vl[start + k as usize].duplicate()
        } else {
            tilde_line()
        };
        let ghost lv = line@;
        out.push(line);
        proof {
            assert(lines_view(out@) =~= before.push(lv));
            assert(window_spec(v, start as int, height as nat).take(k + 1) =~= window_spec(
                v,
                start as int,
                height as nat,
            ).take(k as int).push(lv));
        }
        k = k + 1;
    }
    proof {
        assert(window_spec(v, start as int, height as nat).take(height as int) =~= window_spec(
            v,
            start as int,
            height as nat,
        ));
    }
    out
}

/// The side-by-side view of the selected change as drawn: a header for
/// each side, and the visible lines of each side.
#[derive(Debug)]
pub struct SideBySide {
    pub old_header: StyledLine,
    pub new_header: StyledLine,
    pub old_lines: Vec<StyledLine>,
    pub new_lines: Vec<StyledLine>,
}

pub struct SideBySideView {
    pub old_header: LineSpans,
    pub new_header: LineSpans,
    pub old_lines: Seq<LineSpans>,
    pub new_lines: Seq<LineSpans>,
}

impl View for SideBySide {
    type V = SideBySideView;

    open spec fn view(&self) -> SideBySideView {
        SideBySideView {
            old_header: self.old_header@,
            new_header: self.new_header@,
            old_lines: lines_view(self.old_lines@),
            new_lines: lines_view(self.new_lines@),
        }
    }
}

pub open spec fn sym_file(s: Option<SymbolView>) -> Option<Seq<char>> {
    match s {
        Some(s) => Some(s.file_path),
        None => None,
    }
}

pub open spec fn header_spec(arrow: Seq<char>, f: Option<Seq<char>>, color: Color) -> LineSpans {
    seq![(
        arrow + match f {
            Some(p) => p,
            None => "(none)"@,
        },
        TextStyle::fg_bold_spec(color),
    )]
}

/// The text shown for one side: the file's content when it was loaded,
/// else the symbol's own text, else nothing.
pub open spec fn display_text(f: Option<Seq<char>>, content: Option<Seq<char>>, s: Option<SymbolView>) -> Seq<char> {
    match (if f is Some { content } else { None }) {
        Some(c) => c,
        None => match s {
            Some(s) => s.body_text,
            None => Seq::empty(),
        },
    }
}

/// The side-by-side view of change `selected` of `cs`, scrolled `scroll`
/// lines of text down and `h` characters right, in panels `width` wide
/// and `height` high; `None` when no change is selected.
pub open spec fn side_by_side_spec(
    cs: Seq<ChangeView>,
    selected: usize,
    scroll: usize,
    h: usize,
    old_content: Option<Seq<char>>,
    new_content: Option<Seq<char>>,
    width: u16,
    height: u16,
) -> Option<SideBySideView> {
    if selected >= cs.len() {
        None
    } else {
        let c = cs[selected as int];
        let old_file = sym_file(c.old_symbol);
        let new_file = sym_file(c.new_symbol);
        let old_text = display_text(old_file, old_content, c.old_symbol);
        let new_text = display_text(new_file, new_content, c.new_symbol);
        let regions = block_regions_spec(cs, old_file, new_file, selected as int);
        let rows = aligned_spec(line_changes(old_text, new_text));
        let st = render_spec(
            rows,
            RenderCtx {
                old_lines: text_lines(old_text),
                new_lines: text_lines(new_text),
                old_regs: regions.0,
                new_regs: regions.1,
                width: sat_sub(width as int, 1) as usize,
                h,
            },
        );
        let start = scroll_vline_spec(st.old, scroll);
        Some(
            SideBySideView {
                old_header: header_spec(" <- "@, old_file, Color::Red),
                new_header: header_spec(" -> "@, new_file, Color::Green),
                old_lines: window_spec(st.old, start, height as nat),
                new_lines: window_spec(st.new, start, height as nat),
            },
        )
    }
}

fn header_line(arrow: &str, f: &Option<String>, color: Color) -> (r: StyledLine)
    ensures
        r@ == header_spec(arrow@, opt_str_view(*f), color),
{
    let mut s = String::from_str(arrow);
    match f {
        Some(p) => push_str(&mut s, p.as_str()),
        None => push_str(&mut s, "(none)"),
    }
    StyledLine::single(s, TextStyle::fg_bold(color))
}

/// The side-by-side view of the selected change. The contents of the two
/// files are handed in as loaded; a side without a file shows its symbol's
/// text.
pub fn side_by_side(
    changes: &[SemanticChange],
    selected_index: usize,
    detail_scroll: usize,
    detail_h_scroll: usize,
    old_content: Option<String>,
    new_content: Option<String>,
    panel_width: u16,
    visible_height: u16,
) -> (r: Option<SideBySide>)
    ensures
        match r {
            Some(v) => side_by_side_spec(
                crate::diff::changes_view(changes@),
                selected_index,
                detail_scroll,
                detail_h_scroll,
                opt_str_view(old_content),
                opt_str_view(new_content),
                panel_width,
                visible_height,
            ) == Some(v@),
            None => side_by_side_spec(
                crate::diff::changes_view(changes@),
                selected_index,
                detail_scroll,
                detail_h_scroll,
                opt_str_view(old_content),
                opt_str_view(new_content),
                panel_width,
                visible_height,
            ) is None,
        },
{
    if selected_index >= changes.len() {
        return None;
    }
    let change = &changes[selected_index];
    let ghost cv = crate::diff::changes_view(changes@);
    assert(cv[selected_index as int] == change@);
    let old_file: Option<String> = match &change.old_symbol {
        Some(s) => Some(s.file_path.clone()),
        None => None,
    };
    let new_file: Option<String> = match &change.new_symbol {
        Some(s) => Some(s.file_path.clone()),
        None => None,
    };
    let old_header = header_line(" <- ", &old_file, Color::Red);
    let new_header = header_line(" -> ", &new_file, Color::Green);
    let old_text: String = match (if old_file.is_some() { old_content } else { None }) {
        Some(c) => c,
        None => match &change.old_symbol {
            Some(s) => s.body_text.clone(),
            None => String::new(),
        },
    };
    let new_text: String = match (if new_file.is_some() { new_content } else { None }) {
        Some(c) => c,
        None => match &change.new_symbol {
            Some(s) => s.body_text.clone(),
            None => String::new(),
        },
    };
    let (old_regions, new_regions) = build_block_regions(changes, &old_file, &new_file, selected_index);
    let border_width: usize = if panel_width >= 1 {
        (panel_width - 1) as usize
    } else {
        0
    };
    let rows = build_aligned_rows(old_text.as_str(), new_text.as_str());
    let (old_vlines, new_vlines) = render_aligned_rows(
        rows.as_slice(),
        old_text.as_str(),
        new_text.as_str(),
        &old_regions,
        &new_regions,
        border_width,
        detail_h_scroll,
    );
    let start = find_scroll_vline(&old_vlines, detail_scroll);
    let old_visible = window(&old_vlines, start, visible_height);
    let new_visible = window(&new_vlines, start, visible_height);
    let r = SideBySide { old_header, new_header, old_lines: old_visible, new_lines: new_visible };
    proof {
        assert(old_text@ == display_text(opt_str_view(old_file), opt_str_view(old_content), change@.old_symbol));
        assert(new_text@ == display_text(opt_str_view(new_file), opt_str_view(new_content), change@.new_symbol));
        assert(opt_str_view(old_file) == sym_file(change@.old_symbol));
        assert(opt_str_view(new_file) == sym_file(change@.new_symbol));
    }
    Some(r)
}

/// The side-by-side view of the app's selected change, with the contents
/// of its old and new file as loaded by the caller.
pub fn render_inline(
    app: &crate::tui::app::App,
    old_content: Option<String>,
    new_content: Option<String>,
    panel_width: u16,
    visible_height: u16,
) -> (r: Option<SideBySide>)
    ensures
        match r {
            Some(v) => side_by_side_spec(
                app.changes(),
                app.selected_index,
                app.detail_scroll,
                app.detail_h_scroll,
                opt_str_view(old_content),
                opt_str_view(new_content),
                panel_width,
                visible_height,
            ) == Some(v@),
            None => side_by_side_spec(
                app.changes(),
                app.selected_index,
                app.detail_scroll,
                app.detail_h_scroll,
                opt_str_view(old_content),
                opt_str_view(new_content),
                panel_width,
                visible_height,
            ) is None,
        },
{
    side_by_side(
        app.diff_result.changes.as_slice(),
        app.selected_index,
        app.detail_scroll,
        app.detail_h_scroll,
        old_content,
        new_content,
        panel_width,
        visible_height,
    )
}

} // verus!
