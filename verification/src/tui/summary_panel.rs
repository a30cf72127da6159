//! The summary panel: the changes listed under their files.
use vstd::prelude::*;

use crate::diff::change::{change_symbol_name, ChangeKind, ChangeKindView, ChangeView, SemanticChange};
use crate::ratio::{percent, rounded_percent};
use crate::text::{chars_of, decimal, push_str, string_from_chars, u128_to_string, usize_to_string};
use crate::tui::app::{change_files, group_indices, nav_groups, App};
use crate::tui::style::{lines_view, Color, LineSpans, StyledLine, StyledSpan, TextStyle};

verus! {

/// Position of the `k`-th `/` counting back from before position `i`, or
/// -1 when there are fewer.
pub open spec fn slash_back(p: Seq<char>, i: int, k: nat) -> int
    decreases i,
{
    if i <= 0 || i > p.len() || k == 0 {
        -1
    } else if p[i - 1] == '/' {
        if k == 1 {
            i - 1
        } else {
            slash_back(p, i - 1, (k - 1) as nat)
        }
    } else {
        slash_back(p, i - 1, k)
    }
}

/// A path cut to its last three components.
pub open spec fn shorten_spec(p: Seq<char>) -> Seq<char> {
    let s = slash_back(p, p.len() as int, 3);
    if s < 0 {
        p
    } else {
        p.skip(s + 1)
    }
}

/// The last three components of a path (the whole path when it has no
/// more).
pub fn shorten_path(path: &str) -> (r: String)
    ensures
        r@ == shorten_spec(path@),
{
    let c = chars_of(path);
    let mut i: usize = c.len();
    let mut k: usize = 3;
    while i > 0
        invariant
            i <= c@.len(),
            c@ == path@,
            1 <= k <= 3,
            slash_back(c@, i as int, k as nat) == slash_back(c@, c@.len() as int, 3),
        decreases i,
    {
        if c[i - 1] == '/' {
            if k == 1 {
                let mut out: Vec<char> = Vec::new();
                let mut j: usize = i;
                while j < c.len()
                    invariant
                        i <= j <= c@.len(),
                        out@ == c@.subrange(i as int, j as int),
                    decreases c.len() - j,
                {
                    out.push(c[j]);
                    j = j + 1;
                    assert(out@ =~= c@.subrange(i as int, j as int));
                }
                assert(c@.subrange(i as int, c@.len() as int) =~= c@.skip(i as int));
                assert(c@ == path@);
                return string_from_chars(out.as_slice());
            }
            k = k - 1;
        }
        i = i - 1;
    }
    assert(c@ == path@);
    String::from_str(path)
}

/// The colour of a change kind in lists.
pub open spec fn kind_style(k: ChangeKindView) -> TextStyle {
    match k {
        ChangeKindView::Added => TextStyle::fg_spec(Color::Green),
        ChangeKindView::Deleted => TextStyle::fg_spec(Color::Red),
        ChangeKindView::Renamed { .. } => TextStyle::fg_spec(Color::Yellow),
        ChangeKindView::Moved { .. } => TextStyle::fg_spec(Color::Cyan),
        ChangeKindView::MovedAndModified { .. } => TextStyle::fg_bold_spec(Color::Cyan),
        ChangeKindView::Extracted { .. } => TextStyle::fg_spec(Color::Magenta),
        ChangeKindView::Inlined { .. } => TextStyle::fg_spec(Color::Magenta),
        ChangeKindView::SignatureChanged { .. } => TextStyle::fg_bold_spec(Color::Yellow),
        ChangeKindView::BodyChanged => TextStyle::fg_spec(Color::Blue),
        ChangeKindView::VisibilityChanged { .. } => TextStyle::fg_spec(Color::Gray),
    }
}

pub fn change_kind_style(kind: &ChangeKind) -> (r: TextStyle)
    ensures
        r == kind_style(kind@),
{
    match kind {
        ChangeKind::Added => TextStyle::fg(Color::Green),
        ChangeKind::Deleted => TextStyle::fg(Color::Red),
        ChangeKind::Renamed { .. } => TextStyle::fg(Color::Yellow),
        ChangeKind::Moved { .. } => TextStyle::fg(Color::Cyan),
        ChangeKind::MovedAndModified { .. } => TextStyle::fg_bold(Color::Cyan),
        ChangeKind::Extracted { .. } => TextStyle::fg(Color::Magenta),
        ChangeKind::Inlined { .. } => TextStyle::fg(Color::Magenta),
        ChangeKind::SignatureChanged { .. } => TextStyle::fg_bold(Color::Yellow),
        ChangeKind::BodyChanged => TextStyle::fg(Color::Blue),
        ChangeKind::VisibilityChanged { .. } => TextStyle::fg(Color::Gray),
    }
}

pub open spec fn file_header(file: Seq<char>, n: nat) -> LineSpans {
    seq![("📁 "@ + shorten_spec(file) + " ("@ + decimal(n) + ")"@, TextStyle::fg_bold_spec(Color::Cyan))]
}

pub open spec fn item_confidence(c: ChangeView) -> Seq<char> {
    if c.confidence.num < c.confidence.den {
        " "@ + decimal(rounded_percent(c.confidence)) + "%"@
    } else {
        Seq::empty()
    }
}

/// A change's row: its tag in the kind's colour, its name (bold when
/// selected) and its confidence when below one.
pub open spec fn change_item(c: ChangeView, selected: bool) -> LineSpans {
    seq![
        ("  "@, TextStyle::plain_spec()),
        ("["@ + c.kind.label() + "]"@, kind_style(c.kind)),
        (" "@, TextStyle::plain_spec()),
        (change_symbol_name(c.old_symbol, c.new_symbol), if selected {
            TextStyle { fg: None, bg: None, bold: true }
        } else {
            TextStyle::plain_spec()
        }),
        (item_confidence(c), TextStyle::fg_spec(Color::DarkGray)),
    ]
}

/// The rows of one file group, and the change each row selects.
pub open spec fn group_rows(cs: Seq<ChangeView>, g: (Seq<char>, Seq<usize>), selected: usize) -> Seq<(LineSpans, Option<usize>)> {
    seq![(file_header(g.0, g.1.len()), None::<usize>)] + g.1.map_values(
        |ci: usize| (change_item(cs[ci as int], ci == selected), Some(ci)),
    )
}

pub open spec fn all_rows(cs: Seq<ChangeView>, gs: Seq<(Seq<char>, Seq<usize>)>, selected: usize) -> Seq<(LineSpans, Option<usize>)>
    decreases gs.len(),
{
    if gs.len() == 0 {
        Seq::empty()
    } else {
        all_rows(cs, gs.drop_last(), selected) + group_rows(cs, gs.last(), selected)
    }
}

/// The rows of the summary panel: for each file (in order of its first
/// change) a header with its change count, then its changes.
pub open spec fn grouped_items_spec(cs: Seq<ChangeView>, selected: usize) -> Seq<(LineSpans, Option<usize>)> {
    all_rows(cs, nav_groups(change_files(cs)), selected)
}

pub open spec fn rows_view(lines: Seq<StyledLine>, map: Seq<Option<usize>>) -> Seq<(LineSpans, Option<usize>)> {
    Seq::new(lines.len(), |i: int| (lines[i]@, map[i]))
}

proof fn lemma_groups_in_range(files: Seq<Seq<char>>)
    ensures
        forall|k: int, j: int|
            0 <= k < nav_groups(files).len() && 0 <= j < nav_groups(files)[k].1.len() ==> (
            #[trigger] nav_groups(files)[k].1[j]) < files.len(),
    decreases files.len(),
{
    if files.len() > 0 {
        lemma_groups_in_range(files.drop_last());
        let g = nav_groups(files.drop_last());
        crate::tui::app::lemma_group_pos_range(g, files.last());
    }
}

fn change_row(c: &SemanticChange, selected: bool) -> (r: StyledLine)
    requires
        c.confidence.wf(),
    ensures
        r@ == change_item(c@, selected),
{
    let mut spans: Vec<StyledSpan> = Vec::new();
    spans.push(StyledSpan::from_str("  ", TextStyle::plain()));
    let mut tag = String::from_str("[");
    push_str(&mut tag, c.kind.label());
    push_str(&mut tag, "]");
    spans.push(StyledSpan::new(tag, change_kind_style(&c.kind)));
    spans.push(StyledSpan::from_str(" ", TextStyle::plain()));
    let name_style = if selected {
        TextStyle { fg: None, bg: None, bold: true }
    } else {
        TextStyle::plain()
    };
    spans.push(StyledSpan::from_str(c.symbol_name(), name_style));
    let mut conf = String::new();
    if c.confidence.num < c.confidence.den {
        push_str(&mut conf, " ");
        push_str(&mut conf, u128_to_string(percent(&c.confidence)).as_str());
        push_str(&mut conf, "%");
    }
    proof {
        assert(conf@ =~= item_confidence(c@));
    }
    spans.push(StyledSpan::new(conf, TextStyle::fg(Color::DarkGray)));
    let r = StyledLine::from_spans(spans);
    assert(r@ =~= change_item(c@, selected));
    r
}

/// The rows of the summary panel and, for each row, the change it selects
/// (`None` for file headers).
pub fn build_grouped_items(app: &App) -> (r: (Vec<StyledLine>, Vec<Option<usize>>))
    requires
        forall|i: int| 0 <= i < app.changes().len() ==> (#[trigger] app.changes()[i]).confidence.wf(),
    ensures
        r.0@.len() == r.1@.len(),
        rows_view(r.0@, r.1@) == grouped_items_spec(app.changes(), app.selected_index),
{
    let ghost cs = app.changes();
    let groups = crate::tui::app::file_groups(&app.diff_result);
    let ghost gv = crate::tui::app::groups_view(groups@);
    proof {
        lemma_groups_in_range(change_files(cs));
    }
    let mut lines: Vec<StyledLine> = Vec::new();
    let mut map: Vec<Option<usize>> = Vec::new();
    let mut g: usize = 0;
    proof {
        assert(gv.take(0) =~= Seq::<(Seq<char>, Seq<usize>)>::empty());
        assert(rows_view(lines@, map@) =~= Seq::<(LineSpans, Option<usize>)>::empty());
    }
    while g < groups.len()
        invariant
            g <= groups@.len(),
            cs == app.changes(),
            gv == crate::tui::app::groups_view(groups@),
            gv == nav_groups(change_files(cs)),
            forall|k: int, j: int| 0 <= k < gv.len() && 0 <= j < gv[k].1.len() ==> (#[trigger] gv[k].1[j]) < cs.len(),
            forall|i: int| 0 <= i < cs.len() ==> (#[trigger] cs[i]).confidence.wf(),
            lines@.len() == map@.len(),
            rows_view(lines@, map@) == all_rows(cs, gv.take(g as int), app.selected_index),
        decreases groups.len() - g,
    {
        let ghost before = rows_view(lines@, map@);
        let file = &groups[g].0;
        let idxs = &groups[g].1;
        assert(gv[g as int] == (file@, idxs@));
        let mut h = String::from_str("📁 ");
        push_str(&mut h, shorten_path(file.as_str()).as_str());
        push_str(&mut h, " (");
        push_str(&mut h, usize_to_string(idxs.len()).as_str());
        push_str(&mut h, ")");
        lines.push(StyledLine::single(h, TextStyle::fg_bold(Color::Cyan)));
        map.push(None);
        proof {
            assert(rows_view(lines@, map@) =~= before.push((file_header(file@, idxs@.len()), None)));
        }
        let ghost head = rows_view(lines@, map@);
        let mut j: usize = 0;
        while j < idxs.len()
            invariant
                j <= idxs@.len(),
                g < groups@.len(),
                idxs@ == gv[g as int].1,
                cs == app.changes(),
                forall|jj: int| 0 <= jj < idxs@.len() ==> (#[trigger] idxs@[jj]) < cs.len(),
                forall|i: int| 0 <= i < cs.len() ==> (#[trigger] cs[i]).confidence.wf(),
                lines@.len() == map@.len(),
                rows_view(lines@, map@) == head + idxs@.take(j as int).map_values(
                    |ci: usize| (change_item(cs[ci as int], ci == app.selected_index), Some(ci)),
                ),
            decreases idxs.len() - j,
        {
            let ci = idxs[j];
            assert(idxs@[j as int] < cs.len());
            let c = &app.diff_result.changes[ci];
            assert(cs[ci as int] == c@);
            let ghost prev = rows_view(lines@, map@);
            lines.push(change_row(c, ci == app.selected_index));
            map.push(Some(ci));
            proof {
                assert(rows_view(lines@, map@) =~= prev.push((change_item(c@, ci == app.selected_index), Some(ci))));
                assert(idxs@.take(j + 1).map_values(
                    |ci: usize| (change_item(cs[ci as int], ci == app.selected_index), Some(ci)),
                ) =~= idxs@.take(j as int).map_values(
                    |ci: usize| (change_item(cs[ci as int], ci == app.selected_index), Some(ci)),
                ).push((change_item(cs[ci as int], ci == app.selected_index), Some(ci))));
            }
            j = j + 1;
        }
        proof {
            assert(idxs@.take(idxs@.len() as int) =~= idxs@);
            assert(gv.take(g + 1).drop_last() =~= gv.take(g as int));
            assert(gv.take(g + 1).last() == gv[g as int]);
            assert(rows_view(lines@, map@) =~= all_rows(cs, gv.take(g + 1), app.selected_index));
        }
        g = g + 1;
    }
    proof {
        assert(gv.take(groups@.len() as int) =~= gv);
    }
    (lines, map)
}

/// The row of the selected change: the first row that selects it, else
/// the first row.
pub open spec fn selected_row_spec(map: Seq<Option<usize>>, selected: usize, k: int) -> int
    decreases map.len() - k,
{
    if k < 0 || k >= map.len() {
        0
    } else if map[k] == Some(selected) {
        k
    } else {
        selected_row_spec(map, selected, k + 1)
    }
}

pub fn selected_row(map: &Vec<Option<usize>>, selected: usize) -> (r: usize)
    ensures
        r as int == selected_row_spec(map@, selected, 0),
{
    let mut k: usize = 0;
    while k < map.len()
        invariant
            k <= map@.len(),
            selected_row_spec(map@, selected, k as int) == selected_row_spec(map@, selected, 0),
        decreases map.len() - k,
    {
        if map[k] == Some(selected) {
            return k;
        }
        k = k + 1;
    }
    0
}

/// What the summary panel shows when there are no changes.
pub open spec fn no_changes_spec() -> Seq<LineSpans> {
    seq![
        seq![(Seq::empty(), TextStyle::plain_spec())],
        seq![("  No semantic changes detected."@, TextStyle::plain_spec())],
        seq![(Seq::empty(), TextStyle::plain_spec())],
        seq![("  Changed files may be in unsupported formats."@, TextStyle::fg_spec(Color::DarkGray))],
        seq![("  Supported: .rs .go .ts .tsx .js .py .svelte"@, TextStyle::fg_spec(Color::DarkGray))],
    ]
}

pub fn no_changes_lines() -> (r: Vec<StyledLine>)
    ensures
        lines_view(r@) == no_changes_spec(),
{
    let mut v: Vec<StyledLine> = Vec::new();
    v.push(StyledLine::single(String::new(), TextStyle::plain()));
    v.push(StyledLine::single(String::from_str("  No semantic changes detected."), TextStyle::plain()));
    v.push(StyledLine::single(String::new(), TextStyle::plain()));
    v.push(StyledLine::single(String::from_str("  Changed files may be in unsupported formats."), TextStyle::fg(Color::DarkGray)));
    v.push(StyledLine::single(String::from_str("  Supported: .rs .go .ts .tsx .js .py .svelte"), TextStyle::fg(Color::DarkGray)));
    assert(lines_view(v@) =~= no_changes_spec());
    v
}

} // verus!
