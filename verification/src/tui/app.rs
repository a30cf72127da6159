//! The state of the interactive view: which change is selected, which panel
//! has the focus, how far each panel is scrolled, and how keys change it.
use vstd::prelude::*;

use crate::ast::symbol::SymbolView;
use crate::diff::change::{change_file_info, ChangeView, DiffResult, SemanticChange};
use crate::llm::review::ReviewResult;
use crate::repo::RepoAnalysis;
use crate::text::str_eq;

verus! {

/// The panel that receives the arrow keys.
#[derive(Debug, Clone, Copy, PartialEq, Eq, Structural)]
pub enum PanelFocus {
    Summary,
    Detail,
    Review,
    Impact,
}

/// What the bottom panel shows.
#[derive(Debug, Clone, Copy, PartialEq, Eq, Structural)]
pub enum BottomPanel {
    Review,
    Impact,
}

/// A key press, as far as the view tells keys apart.
#[derive(Debug, Clone, Copy)]
pub enum Key {
    Char(char),
    Tab,
    Up,
    Down,
    Left,
    Right,
    PageUp,
    PageDown,
    Home,
    End,
    Enter,
    Other,
}

/// The interactive view's state.
#[derive(Debug)]
pub struct App {
    pub diff_result: DiffResult,
    pub selected_index: usize,
    pub panel_focus: PanelFocus,
    pub bottom_panel: BottomPanel,
    pub bottom_visible: bool,
    /// Reviews by change index.
    pub reviews: Vec<(usize, ReviewResult)>,
    pub overall_review: Option<ReviewResult>,
    pub repo_analysis: Option<RepoAnalysis>,
    pub summary_scroll: usize,
    pub detail_scroll: usize,
    pub detail_h_scroll: usize,
    pub bottom_scroll: usize,
    pub should_quit: bool,
    pub llm_enabled: bool,
    pub loading_review: bool,
    pub status_message: Option<String>,
    /// Where the new (current) version of the files is read from.
    pub repo_root: Option<String>,
    /// Where the old version of the files is read from.
    pub old_root: Option<String>,
    /// Change indices in the order the summary panel lists them.
    pub nav_order: Vec<usize>,
    /// Position of the selected change in `nav_order`.
    pub nav_pos: usize,
}

/// The navigation state of the view.
pub struct NavView {
    pub selected_index: usize,
    pub panel_focus: PanelFocus,
    pub bottom_panel: BottomPanel,
    pub bottom_visible: bool,
    pub detail_scroll: usize,
    pub detail_h_scroll: usize,
    pub bottom_scroll: usize,
    pub should_quit: bool,
    pub nav_order: Seq<usize>,
    pub nav_pos: usize,
}

impl App {
    pub open spec fn nav(&self) -> NavView {
        NavView {
            selected_index: self.selected_index,
            panel_focus: self.panel_focus,
            bottom_panel: self.bottom_panel,
            bottom_visible: self.bottom_visible,
            detail_scroll: self.detail_scroll,
            detail_h_scroll: self.detail_h_scroll,
            bottom_scroll: self.bottom_scroll,
            should_quit: self.should_quit,
            nav_order: self.nav_order@,
            nav_pos: self.nav_pos,
        }
    }

    pub open spec fn changes(&self) -> Seq<ChangeView> {
        crate::diff::changes_view(self.diff_result.changes@)
    }

    /// The fields that navigation leaves alone.
    pub open spec fn same_data(&self, other: App) -> bool {
        &&& self.diff_result == other.diff_result
        &&& self.reviews == other.reviews
        &&& self.overall_review == other.overall_review
        &&& self.repo_analysis == other.repo_analysis
        &&& self.summary_scroll == other.summary_scroll
        &&& self.llm_enabled == other.llm_enabled
        &&& self.loading_review == other.loading_review
        &&& self.status_message == other.status_message
        &&& self.repo_root == other.repo_root
        &&& self.old_root == other.old_root
    }
}

// ------------------------------------------------------------ navigation

/// The first review recorded for change `idx`, from position `k` on.
pub open spec fn review_for(reviews: Seq<(usize, ReviewResult)>, idx: usize, k: int) -> Option<ReviewResult>
    decreases reviews.len() - k,
{
    if k < 0 || k >= reviews.len() {
        None
    } else if reviews[k].0 == idx {
        Some(reviews[k].1)
    } else {
        review_for(reviews, idx, k + 1)
    }
}

/// The line a change is shown at: its new symbol's first line, else its
/// old symbol's.
pub open spec fn anchor(c: ChangeView) -> Option<usize> {
    match c.new_symbol {
        Some(s) => Some(s.line_range.0),
        None => match c.old_symbol {
            Some(s) => Some(s.line_range.0),
            None => None,
        },
    }
}

/// Where the side-by-side view scrolls for change `idx`: three lines above
/// it, or the top.
pub open spec fn scroll_target(cs: Seq<ChangeView>, idx: usize) -> usize {
    if idx < cs.len() {
        match anchor(cs[idx as int]) {
            Some(l) => if l >= 3 {
                (l - 3) as usize
            } else {
                0
            },
            None => 0,
        }
    } else {
        0
    }
}

pub open spec fn auto_scroll_spec(n: NavView, cs: Seq<ChangeView>) -> NavView {
    NavView { detail_scroll: scroll_target(cs, n.selected_index), detail_h_scroll: 0, ..n }
}

/// Selecting the change at a position of the navigation order.
pub open spec fn select_at(n: NavView, pos: usize, cs: Seq<ChangeView>) -> NavView {
    auto_scroll_spec(NavView { nav_pos: pos, selected_index: n.nav_order[pos as int], ..n }, cs)
}

pub open spec fn next_spec(n: NavView, cs: Seq<ChangeView>) -> NavView {
    if n.nav_pos + 1 < n.nav_order.len() {
        NavView { bottom_scroll: 0, ..select_at(n, (n.nav_pos + 1) as usize, cs) }
    } else {
        n
    }
}

pub open spec fn prev_spec(n: NavView, cs: Seq<ChangeView>) -> NavView {
    if n.nav_pos > 0 {
        NavView { bottom_scroll: 0, ..select_at(n, (n.nav_pos - 1) as usize, cs) }
    } else {
        n
    }
}

pub open spec fn sat_add(a: usize, b: usize) -> usize {
    if a + b <= usize::MAX {
        (a + b) as usize
    } else {
        usize::MAX
    }
}

pub open spec fn sat_sub(a: usize, b: usize) -> usize {
    if a >= b {
        (a - b) as usize
    } else {
        0
    }
}

pub open spec fn focus_spec(n: NavView) -> NavView {
    NavView {
        panel_focus: match n.panel_focus {
            PanelFocus::Summary => PanelFocus::Detail,
            PanelFocus::Detail => if n.bottom_visible {
                match n.bottom_panel {
                    BottomPanel::Review => PanelFocus::Review,
                    BottomPanel::Impact => PanelFocus::Impact,
                }
            } else {
                PanelFocus::Summary
            },
            _ => PanelFocus::Summary,
        },
        ..n
    }
}

pub open spec fn is_bottom_focus(f: PanelFocus) -> bool {
    f == PanelFocus::Review || f == PanelFocus::Impact
}

pub open spec fn toggle_bottom_spec(n: NavView) -> NavView {
    let vis = !n.bottom_visible;
    NavView {
        bottom_visible: vis,
        panel_focus: if !vis && is_bottom_focus(n.panel_focus) {
            PanelFocus::Summary
        } else {
            n.panel_focus
        },
        ..n
    }
}

pub open spec fn cycle_bottom_spec(n: NavView) -> NavView {
    let p = match n.bottom_panel {
        BottomPanel::Review => BottomPanel::Impact,
        BottomPanel::Impact => BottomPanel::Review,
    };
    NavView {
        bottom_panel: p,
        bottom_scroll: 0,
        panel_focus: if is_bottom_focus(n.panel_focus) {
            match p {
                BottomPanel::Review => PanelFocus::Review,
                BottomPanel::Impact => PanelFocus::Impact,
            }
        } else {
            n.panel_focus
        },
        ..n
    }
}

/// One step up in the focused panel: the previous change, or a line up.
pub open spec fn up_spec(n: NavView, cs: Seq<ChangeView>) -> NavView {
    match n.panel_focus {
        PanelFocus::Summary => prev_spec(n, cs),
        PanelFocus::Detail => NavView { detail_scroll: sat_sub(n.detail_scroll, 1), ..n },
        _ => NavView { bottom_scroll: sat_sub(n.bottom_scroll, 1), ..n },
    }
}

/// One step down in the focused panel: the next change, or a line down.
pub open spec fn down_spec(n: NavView, cs: Seq<ChangeView>) -> NavView {
    match n.panel_focus {
        PanelFocus::Summary => next_spec(n, cs),
        PanelFocus::Detail => NavView { detail_scroll: sat_add(n.detail_scroll, 1), ..n },
        _ => NavView { bottom_scroll: sat_add(n.bottom_scroll, 1), ..n },
    }
}

pub open spec fn up_times(n: NavView, cs: Seq<ChangeView>, k: nat) -> NavView
    decreases k,
{
    if k == 0 {
        n
    } else {
        up_spec(up_times(n, cs, (k - 1) as nat), cs)
    }
}

pub open spec fn down_times(n: NavView, cs: Seq<ChangeView>, k: nat) -> NavView
    decreases k,
{
    if k == 0 {
        n
    } else {
        down_spec(down_times(n, cs, (k - 1) as nat), cs)
    }
}

/// What a key does to the navigation state. Ctrl-C and `q` quit; Tab moves
/// the focus; `v` shows or hides the bottom panel and `b` switches it;
/// arrows and `hjkl` move in the focused panel, sideways only in the
/// detail panel; page keys move ten steps; Home and End select the first
/// and the last change.
pub open spec fn key_spec(n: NavView, key: Key, ctrl: bool, cs: Seq<ChangeView>) -> NavView {
    let n = if ctrl && key == Key::Char('c') {
        NavView { should_quit: true, ..n }
    } else {
        n
    };
    match key {
        Key::Char('q') => NavView { should_quit: true, ..n },
        Key::Tab => focus_spec(n),
        Key::Char('v') => toggle_bottom_spec(n),
        Key::Char('b') => cycle_bottom_spec(n),
        Key::Up | Key::Char('k') => up_spec(n, cs),
        Key::Down | Key::Char('j') => down_spec(n, cs),
        Key::Right | Key::Char('l') => if n.panel_focus == PanelFocus::Detail {
            NavView { detail_h_scroll: sat_add(n.detail_h_scroll, 4), ..n }
        } else {
            n
        },
        Key::Left | Key::Char('h') => if n.panel_focus == PanelFocus::Detail {
            NavView { detail_h_scroll: sat_sub(n.detail_h_scroll, 4), ..n }
        } else {
            n
        },
        Key::PageUp => up_times(n, cs, 10),
        Key::PageDown => down_times(n, cs, 10),
        Key::Home => if n.nav_order.len() > 0 {
            select_at(n, 0, cs)
        } else {
            n
        },
        Key::End => if n.nav_order.len() > 0 {
            select_at(n, (n.nav_order.len() - 1) as usize, cs)
        } else {
            n
        },
        _ => n,
    }
}

/// The position is inside the navigation order (or zero when it is empty).
pub open spec fn pos_ok(n: NavView) -> bool {
    n.nav_pos < n.nav_order.len() || n.nav_pos == 0
}

/// The navigation order points at changes, and the selection is the entry
/// at the current position.
pub open spec fn nav_wf(n: NavView, count: nat) -> bool {
    &&& n.nav_order.len() <= usize::MAX
    &&& pos_ok(n)
    &&& forall|i: int| 0 <= i < n.nav_order.len() ==> (#[trigger] n.nav_order[i]) < count
    &&& (n.nav_order.len() > 0 ==> n.nav_pos < n.nav_order.len() && n.selected_index
        == n.nav_order[n.nav_pos as int])
}

/// Change indices grouped by file, files in the order of their first
/// change and changes of a file in their own order: the groups of the
/// first changes.
pub open spec fn nav_groups(files: Seq<Seq<char>>) -> Seq<(Seq<char>, Seq<usize>)>
    decreases files.len(),
{
    if files.len() == 0 {
        Seq::empty()
    } else {
        let g = nav_groups(files.drop_last());
        let f = files.last();
        let i = (files.len() - 1) as usize;
        match group_pos(g, f, 0) {
            Some(k) => g.update(k, (g[k].0, g[k].1.push(i))),
            None => g.push((f, seq![i])),
        }
    }
}

/// The first group at or after `k` for file `f`.
pub open spec fn group_pos(g: Seq<(Seq<char>, Seq<usize>)>, f: Seq<char>, k: int) -> Option<int>
    decreases g.len() - k,
{
    if k < 0 || k >= g.len() {
        None
    } else if g[k].0 == f {
        Some(k)
    } else {
        group_pos(g, f, k + 1)
    }
}

pub open spec fn group_indices(g: Seq<(Seq<char>, Seq<usize>)>) -> Seq<Seq<usize>> {
    g.map_values(|x: (Seq<char>, Seq<usize>)| x.1)
}

/// The navigation order: the changes grouped by file, as the summary
/// panel lists them.
pub open spec fn nav_order_spec(files: Seq<Seq<char>>) -> Seq<usize> {
    group_indices(nav_groups(files)).flatten()
}

pub open spec fn change_files(cs: Seq<ChangeView>) -> Seq<Seq<char>> {
    cs.map_values(|c: ChangeView| change_file_info(c.old_symbol, c.new_symbol))
}

/// The group found for a file lies in the groups.
pub proof fn lemma_group_pos_range(g: Seq<(Seq<char>, Seq<usize>)>, f: Seq<char>)
    ensures
        group_pos(g, f, 0) matches Some(p) ==> 0 <= p < g.len(),
{
    lemma_group_pos(g, f, 0);
}

proof fn lemma_group_pos(g: Seq<(Seq<char>, Seq<usize>)>, f: Seq<char>, k: int)
    requires
        0 <= k <= g.len(),
    ensures
        match group_pos(g, f, k) {
            Some(p) => k <= p < g.len() && g[p].0 == f && forall|q: int| k <= q < p ==> g[q].0 != f,
            None => forall|q: int| k <= q < g.len() ==> g[q].0 != f,
        },
    decreases g.len() - k,
{
    if k < g.len() && g[k].0 != f {
        lemma_group_pos(g, f, k + 1);
    }
}

pub open spec fn groups_view(v: Seq<(String, Vec<usize>)>) -> Seq<(Seq<char>, Seq<usize>)> {
    v.map_values(|x: (String, Vec<usize>)| (x.0@, x.1@))
}

proof fn lemma_flatten_push(s: Seq<Seq<usize>>, x: Seq<usize>)
    ensures
        s.push(x).flatten() == s.flatten() + x,
    decreases s.len(),
{
    if s.len() == 0 {
        assert(s.push(x).drop_first() =~= Seq::<Seq<usize>>::empty());
        assert(s.push(x).flatten() =~= x + Seq::<Seq<usize>>::empty().flatten());
        assert(s.push(x).flatten() =~= s.flatten() + x);
    } else {
        lemma_flatten_push(s.drop_first(), x);
        assert(s.push(x).drop_first() =~= s.drop_first().push(x));
        assert(s.push(x).flatten() =~= s.flatten() + x);
    }
}

/// The changes of a diff grouped by file.
pub fn file_groups(diff_result: &DiffResult) -> (r: Vec<(String, Vec<usize>)>)
    ensures
        groups_view(r@) == nav_groups(change_files(crate::diff::changes_view(diff_result.changes@))),
{
    let ghost files = change_files(crate::diff::changes_view(diff_result.changes@));
    let mut groups: Vec<(String, Vec<usize>)> = Vec::new();
    let mut i: usize = 0;
    proof {
        assert(files.take(0) =~= Seq::<Seq<char>>::empty());
        assert(groups_view(groups@) =~= Seq::<(Seq<char>, Seq<usize>)>::empty());
    }
    while i < diff_result.changes.len()
        invariant
            i <= diff_result.changes@.len(),
            files == change_files(crate::diff::changes_view(diff_result.changes@)),
            files.len() == diff_result.changes@.len(),
            groups_view(groups@) == nav_groups(files.take(i as int)),
        decreases diff_result.changes.len() - i,
    {
        let file = diff_result.changes[i].file_info();
        assert(file@ == files[i as int]);
        let ghost g = groups_view(groups@);
        proof {
            assert(files.take(i + 1).drop_last() =~= files.take(i as int));
            assert(files.take(i + 1).last() == files[i as int]);
            lemma_group_pos(g, file@, 0);
        }
        let mut k: usize = 0;
        let mut found = false;
        while k < groups.len() && !found
            invariant
                k <= groups@.len(),
                g == groups_view(groups@),
                group_pos(g, file@, 0) == group_pos(g, file@, k as int),
                found ==> k < groups@.len() && g[k as int].0 == file@,
            decreases groups.len() - k + (if found { 0int } else { 1int }),
        {
            assert(g[k as int].0 == groups@[k as int].0@);
            if str_eq(groups[k].0.as_str(), file.as_str()) {
                found = true;
            } else {
                k = k + 1;
            }
        }
        if found {
            assert(group_pos(g, file@, k as int) == Some(k as int));
            let mut entry = groups.remove(k);
            entry.1.push(i);
            let ghost ev = (entry.0@, entry.1@);
            groups.insert(k, entry);
            proof {
                assert(groups_view(groups@) =~= g.update(k as int, (g[k as int].0, g[k as int].1.push(i))));
            }
        } else {
            assert(group_pos(g, file@, 0) is None);
            let mut v: Vec<usize> = Vec::new();
            v.push(i);
            groups.push((file, v));
            proof {
                assert(groups_view(groups@) =~= g.push((files[i as int], seq![i])));
            }
        }
        i = i + 1;
    }
    proof {
        assert(files.take(files.len() as int) =~= files);
    }
    groups
}

/// The navigation order of a diff's changes.
pub fn build_nav_order(diff_result: &DiffResult) -> (r: Vec<usize>)
    ensures
        r@ == nav_order_spec(change_files(crate::diff::changes_view(diff_result.changes@))),
{
    let groups = file_groups(diff_result);
    let ghost gv = groups_view(groups@);
    let mut out: Vec<usize> = Vec::new();
    let mut k: usize = 0;
    proof {
        assert(group_indices(gv).take(0) =~= Seq::<Seq<usize>>::empty());
        assert(out@ =~= group_indices(gv).take(0).flatten());
    }
    while k < groups.len()
        invariant
            k <= groups@.len(),
            gv == groups_view(groups@),
            out@ == group_indices(gv).take(k as int).flatten(),
        decreases groups.len() - k,
    {
        let ghost before = out@;
        let mut j: usize = 0;
        while j < groups[k].1.len()
            invariant
                j <= groups@[k as int].1@.len(),
                k < groups@.len(),
                out@ == before + groups@[k as int].1@.take(j as int),
            decreases groups@[k as int].1@.len() - j,
        {
            out.push(groups[k].1[j]);
            j = j + 1;
            assert(out@ =~= before + groups@[k as int].1@.take(j as int));
        }
        proof {
            assert(groups@[k as int].1@.take(j as int) =~= groups@[k as int].1@);
            assert(group_indices(gv).take(k + 1) =~= group_indices(gv).take(k as int).push(groups@[k as int].1@));
            lemma_flatten_push(group_indices(gv).take(k as int), groups@[k as int].1@);
        }
        k = k + 1;
    }
    proof {
        assert(group_indices(gv).take(groups@.len() as int) =~= group_indices(gv));
    }
    out
}

impl App {
    /// A view of a diff, its first change (in navigation order) selected;
    /// the bottom panel shows the impact when there is a repository
    /// analysis, and is hidden otherwise.
    pub fn new(diff_result: DiffResult, llm_enabled: bool, repo_analysis: Option<RepoAnalysis>) -> (r: App)
        ensures
            r.diff_result == diff_result,
            r.llm_enabled == llm_enabled,
            r.repo_analysis == repo_analysis,
            r.bottom_visible == repo_analysis is Some,
            r.bottom_panel == (if repo_analysis is Some {
                BottomPanel::Impact
            } else {
                BottomPanel::Review
            }),
            r.panel_focus == PanelFocus::Summary,
            r.nav_order@ == nav_order_spec(change_files(crate::diff::changes_view(diff_result.changes@))),
            r.nav_pos == 0,
            r.selected_index == (if r.nav_order@.len() > 0 {
                r.nav_order@[0]
            } else {
                0
            }),
            r.detail_scroll == scroll_target(crate::diff::changes_view(diff_result.changes@), r.selected_index),
            r.detail_h_scroll == 0,
            r.bottom_scroll == 0,
            r.summary_scroll == 0,
            !r.should_quit,
            !r.loading_review,
            r.reviews@.len() == 0,
            r.overall_review is None,
            r.status_message is None,
            r.repo_root is None,
            r.old_root is None,
    {
        let bottom_visible = repo_analysis.is_some();
        let bottom_panel = if repo_analysis.is_some() {
            BottomPanel::Impact
        } else {
            BottomPanel::Review
        };
        let nav_order = build_nav_order(&diff_result);
        let selected_index = if nav_order.len() > 0 {
            nav_order[0]
        } else {
            0
        };
        let initial_scroll = scroll_target_of(&diff_result, selected_index);
        App {
            diff_result,
            selected_index,
            panel_focus: PanelFocus::Summary,
            bottom_panel,
            bottom_visible,
            reviews: Vec::new(),
            overall_review: None,
            repo_analysis,
            summary_scroll: 0,
            detail_scroll: initial_scroll,
            detail_h_scroll: 0,
            bottom_scroll: 0,
            should_quit: false,
            llm_enabled,
            loading_review: false,
            status_message: None,
            repo_root: None,
            old_root: None,
            nav_order,
            nav_pos: 0,
        }
    }

    /// The selected change, if the selection points at one.
    pub fn selected_change(&self) -> (r: Option<&SemanticChange>)
        ensures
            match r {
                Some(c) => self.selected_index < self.diff_result.changes@.len() && *c
                    == self.diff_result.changes@[self.selected_index as int],
                None => self.selected_index >= self.diff_result.changes@.len(),
            },
    {
        if self.selected_index < self.diff_result.changes.len() {
            Some(&self.diff_result.changes[self.selected_index])
        } else {
            None
        }
    }

    pub fn change_count(&self) -> (r: usize)
        ensures
            r == self.diff_result.changes@.len(),
    {
        self.diff_result.changes.len()
    }

    /// The next change in navigation order, if there is one.
    pub fn select_next(&mut self)
        ensures
            final(self).nav() == next_spec(old(self).nav(), old(self).changes()),
            final(self).same_data(*old(self)),
    {
        if self.nav_order.len() > 0 && self.nav_pos < self.nav_order.len() - 1 {
            self.nav_pos = self.nav_pos + 1;
            self.selected_index = self.nav_order[self.nav_pos];
            self.auto_scroll_detail();
            self.bottom_scroll = 0;
        }
    }

    /// The previous change in navigation order, if there is one.
    pub fn select_prev(&mut self)
        requires
            pos_ok(old(self).nav()),
        ensures
            final(self).nav() == prev_spec(old(self).nav(), old(self).changes()),
            final(self).same_data(*old(self)),
    {
        if self.nav_pos > 0 {
            self.nav_pos = self.nav_pos - 1;
            self.selected_index = self.nav_order[self.nav_pos];
            self.auto_scroll_detail();
            self.bottom_scroll = 0;
        }
    }

    /// Scrolls the side-by-side view to the selected change.
    pub fn auto_scroll_detail(&mut self)
        ensures
            final(self).nav() == auto_scroll_spec(old(self).nav(), old(self).changes()),
            final(self).same_data(*old(self)),
    {
        self.detail_scroll = scroll_target_of(&self.diff_result, self.selected_index);
        self.detail_h_scroll = 0;
    }

    pub fn scroll_detail_down(&mut self)
        ensures
            final(self).nav() == (NavView { detail_scroll: sat_add(old(self).detail_scroll, 1), ..old(self).nav() }),
            final(self).same_data(*old(self)),
    {
        self.detail_scroll = self.detail_scroll.saturating_add(1);
    }

    pub fn scroll_detail_up(&mut self)
        ensures
            final(self).nav() == (NavView { detail_scroll: sat_sub(old(self).detail_scroll, 1), ..old(self).nav() }),
            final(self).same_data(*old(self)),
    {
        self.detail_scroll = self.detail_scroll.saturating_sub(1);
    }

    pub fn scroll_detail_right(&mut self)
        ensures
            final(self).nav() == (NavView { detail_h_scroll: sat_add(old(self).detail_h_scroll, 4), ..old(self).nav() }),
            final(self).same_data(*old(self)),
    {
        self.detail_h_scroll = self.detail_h_scroll.saturating_add(4);
    }

    pub fn scroll_detail_left(&mut self)
        ensures
            final(self).nav() == (NavView { detail_h_scroll: sat_sub(old(self).detail_h_scroll, 4), ..old(self).nav() }),
            final(self).same_data(*old(self)),
    {
        self.detail_h_scroll = self.detail_h_scroll.saturating_sub(4);
    }

    pub fn scroll_bottom_down(&mut self)
        ensures
            final(self).nav() == (NavView { bottom_scroll: sat_add(old(self).bottom_scroll, 1), ..old(self).nav() }),
            final(self).same_data(*old(self)),
    {
        self.bottom_scroll = self.bottom_scroll.saturating_add(1);
    }

    pub fn scroll_bottom_up(&mut self)
        ensures
            final(self).nav() == (NavView { bottom_scroll: sat_sub(old(self).bottom_scroll, 1), ..old(self).nav() }),
            final(self).same_data(*old(self)),
    {
        self.bottom_scroll = self.bottom_scroll.saturating_sub(1);
    }

    /// Moves the focus: summary, detail, the bottom panel when it is shown,
    /// and back to the summary.
    pub fn cycle_focus(&mut self)
        ensures
            final(self).nav() == focus_spec(old(self).nav()),
            final(self).same_data(*old(self)),
    {
        self.panel_focus = match self.panel_focus {
            PanelFocus::Summary => PanelFocus::Detail,
            PanelFocus::Detail => {
                if self.bottom_visible {
                    match self.bottom_panel {
                        BottomPanel::Review => PanelFocus::Review,
                        BottomPanel::Impact => PanelFocus::Impact,
                    }
                } else {
                    PanelFocus::Summary
                }
            },
            _ => PanelFocus::Summary,
        };
    }

    /// Shows or hides the bottom panel; hiding it takes the focus back to
    /// the summary if the bottom panel had it.
    pub fn toggle_bottom(&mut self)
        ensures
            final(self).nav() == toggle_bottom_spec(old(self).nav()),
            final(self).same_data(*old(self)),
    {
        self.bottom_visible = !self.bottom_visible;
        if !self.bottom_visible && (self.panel_focus == PanelFocus::Review || self.panel_focus
            == PanelFocus::Impact) {
            self.panel_focus = PanelFocus::Summary;
        }
    }

    /// Switches the bottom panel between review and impact; a focus on it
    /// follows.
    pub fn cycle_bottom_panel(&mut self)
        ensures
            final(self).nav() == cycle_bottom_spec(old(self).nav()),
            final(self).same_data(*old(self)),
    {
        self.bottom_panel = match self.bottom_panel {
            BottomPanel::Review => BottomPanel::Impact,
            BottomPanel::Impact => BottomPanel::Review,
        };
        self.bottom_scroll = 0;
        if self.panel_focus == PanelFocus::Review || self.panel_focus == PanelFocus::Impact {
            self.panel_focus = match self.bottom_panel {
                BottomPanel::Review => PanelFocus::Review,
                BottomPanel::Impact => PanelFocus::Impact,
            };
        }
    }

    /// The review of the selected change, if there is one.
    pub fn current_review(&self) -> (r: Option<&ReviewResult>)
        ensures
            match r {
                Some(x) => review_for(self.reviews@, self.selected_index, 0) == Some(*x),
                None => review_for(self.reviews@, self.selected_index, 0) is None,
            },
    {
        let mut k: usize = 0;
        while k < self.reviews.len()
            invariant
                k <= self.reviews@.len(),
                review_for(self.reviews@, self.selected_index, k as int) == review_for(
                    self.reviews@,
                    self.selected_index,
                    0,
                ),
            decreases self.reviews.len() - k,
        {
            if self.reviews[k].0 == self.selected_index {
                return Some(&self.reviews[k].1);
            }
            k = k + 1;
        }
        None
    }

    pub fn has_repo_analysis(&self) -> (r: bool)
        ensures
            r == self.repo_analysis is Some,
    {
        self.repo_analysis.is_some()
    }

    fn up(&mut self)
        requires
            pos_ok(old(self).nav()),
        ensures
            pos_ok(final(self).nav()),
            final(self).nav() == up_spec(old(self).nav(), old(self).changes()),
            final(self).same_data(*old(self)),
    {
        match self.panel_focus {
            PanelFocus::Summary => self.select_prev(),
            PanelFocus::Detail => self.scroll_detail_up(),
            _ => self.scroll_bottom_up(),
        }
    }

    fn down(&mut self)
        requires
            pos_ok(old(self).nav()),
        ensures
            pos_ok(final(self).nav()),
            final(self).nav() == down_spec(old(self).nav(), old(self).changes()),
            final(self).same_data(*old(self)),
    {
        match self.panel_focus {
            PanelFocus::Summary => self.select_next(),
            PanelFocus::Detail => self.scroll_detail_down(),
            _ => self.scroll_bottom_down(),
        }
    }

    fn select_pos(&mut self, pos: usize)
        requires
            pos < old(self).nav_order@.len(),
        ensures
            final(self).nav() == select_at(old(self).nav(), pos, old(self).changes()),
            final(self).same_data(*old(self)),
    {
        self.nav_pos = pos;
        self.selected_index = self.nav_order[pos];
        self.auto_scroll_detail();
    }

    /// Whether the navigation position lies in the navigation order (or
    /// is zero), as key handling needs.
    pub fn nav_pos_ok(&self) -> (r: bool)
        ensures
            r == pos_ok(self.nav()),
    {
        self.nav_pos < self.nav_order.len() || self.nav_pos == 0
    }

    /// Applies a key press (`ctrl` when Control was held).
    pub fn handle_key(&mut self, key: Key, ctrl: bool)
        requires
            pos_ok(old(self).nav()),
        ensures
            final(self).nav() == key_spec(old(self).nav(), key, ctrl, old(self).changes()),
            final(self).same_data(*old(self)),
    {
        if ctrl && matches!(key, Key::Char('c')) {
            self.should_quit = true;
        }
        match key {
            Key::Char('q') => self.should_quit = true,
            Key::Tab => self.cycle_focus(),
            Key::Char('v') => self.toggle_bottom(),
            Key::Char('b') => self.cycle_bottom_panel(),
            Key::Up | Key::Char('k') => self.up(),
            Key::Down | Key::Char('j') => self.down(),
            Key::Right | Key::Char('l') => {
                if self.panel_focus == PanelFocus::Detail {
                    self.scroll_detail_right();
                }
            },
            Key::Left | Key::Char('h') => {
                if self.panel_focus == PanelFocus::Detail {
                    self.scroll_detail_left();
                }
            },
            Key::PageUp => {
                let ghost start = self.nav();
                let mut k: usize = 0;
                while k < 10
                    invariant
                        k <= 10,
                        self.nav() == up_times(start, self.changes(), k as nat),
                        pos_ok(self.nav()),
                        self.same_data(*old(self)),
                    decreases 10 - k,
                {
                    self.up();
                    k = k + 1;
                }
            },
            Key::PageDown => {
                let ghost start = self.nav();
                let mut k: usize = 0;
                while k < 10
                    invariant
                        k <= 10,
                        self.nav() == down_times(start, self.changes(), k as nat),
                        pos_ok(self.nav()),
                        self.same_data(*old(self)),
                    decreases 10 - k,
                {
                    self.down();
                    k = k + 1;
                }
            },
            Key::Home => {
                if self.nav_order.len() > 0 {
                    self.select_pos(0);
                }
            },
            Key::End => {
                if self.nav_order.len() > 0 {
                    let last = self.nav_order.len() - 1;
                    self.select_pos(last);
                }
            },
            _ => {},
        }
    }
}

fn scroll_target_of(d: &DiffResult, idx: usize) -> (r: usize)
    ensures
        r == scroll_target(crate::diff::changes_view(d.changes@), idx),
{
    if idx < d.changes.len() {
        let c = &d.changes[idx];
        let line = match &c.new_symbol {
            Some(s) => Some(s.line_range.0),
            None => match &c.old_symbol {
                Some(s) => Some(s.line_range.0),
                None => None,
            },
        };
        match line {
            Some(l) => l.saturating_sub(3),
            None => 0,
        }
    } else {
        0
    }
}

// ------------------------------------------------------------------ laws

/// Moving to the next change and back selects the change one started
/// from, scrolled to it, with the bottom panel at its top.
pub proof fn lemma_next_then_prev(n: NavView, cs: Seq<ChangeView>)
    requires
        nav_wf(n, cs.len()),
        n.nav_pos + 1 < n.nav_order.len(),
    ensures
        prev_spec(next_spec(n, cs), cs) == (NavView { bottom_scroll: 0, ..auto_scroll_spec(n, cs) }),
{
    let m = next_spec(n, cs);
    assert(m.nav_pos == n.nav_pos + 1);
    assert(m.nav_order == n.nav_order);
    let b = prev_spec(m, cs);
    assert(b.nav_pos == n.nav_pos);
    assert(b.selected_index == n.selected_index);
}

/// Moving to the previous change and forward again selects the change one
/// started from.
pub proof fn lemma_prev_then_next(n: NavView, cs: Seq<ChangeView>)
    requires
        nav_wf(n, cs.len()),
        n.nav_pos > 0,
    ensures
        next_spec(prev_spec(n, cs), cs) == (NavView { bottom_scroll: 0, ..auto_scroll_spec(n, cs) }),
{
    let m = prev_spec(n, cs);
    assert(m.nav_pos == n.nav_pos - 1);
    assert(m.nav_order == n.nav_order);
    let b = next_spec(m, cs);
    assert(b.nav_pos == n.nav_pos);
    assert(b.selected_index == n.selected_index);
}

/// Showing or hiding the bottom panel twice restores its visibility, and
/// the whole state when the focus was not on the bottom panel.
pub proof fn lemma_toggle_bottom_twice(n: NavView)
    ensures
        toggle_bottom_spec(toggle_bottom_spec(n)).bottom_visible == n.bottom_visible,
        !is_bottom_focus(n.panel_focus) ==> toggle_bottom_spec(toggle_bottom_spec(n)) == n,
{
}

/// A focus on the bottom panel is on the panel it shows.
pub open spec fn focus_matches_panel(n: NavView) -> bool {
    is_bottom_focus(n.panel_focus) ==> n.panel_focus == match n.bottom_panel {
        BottomPanel::Review => PanelFocus::Review,
        BottomPanel::Impact => PanelFocus::Impact,
    }
}

/// Switching the bottom panel twice shows the same panel again, scrolled
/// to its top.
pub proof fn lemma_cycle_bottom_twice(n: NavView)
    requires
        focus_matches_panel(n),
    ensures
        cycle_bottom_spec(cycle_bottom_spec(n)) == (NavView { bottom_scroll: 0, ..n }),
{
}

/// With the bottom panel hidden, the focus alternates between the summary
/// and the detail panel.
pub proof fn lemma_focus_cycle_without_bottom(n: NavView)
    requires
        !n.bottom_visible,
        !is_bottom_focus(n.panel_focus),
    ensures
        focus_spec(focus_spec(n)) == n,
{
}

proof fn lemma_up_down_keep_wf(n: NavView, cs: Seq<ChangeView>, k: nat)
    requires
        nav_wf(n, cs.len()),
    ensures
        nav_wf(up_times(n, cs, k), cs.len()),
        nav_wf(down_times(n, cs, k), cs.len()),
        up_times(n, cs, k).nav_order == n.nav_order,
        down_times(n, cs, k).nav_order == n.nav_order,
    decreases k,
{
    if k > 0 {
        lemma_up_down_keep_wf(n, cs, (k - 1) as nat);
    }
}

/// Every key keeps the selection consistent with the navigation order.
pub proof fn lemma_key_keeps_nav_wf(n: NavView, key: Key, ctrl: bool, cs: Seq<ChangeView>)
    requires
        nav_wf(n, cs.len()),
    ensures
        nav_wf(key_spec(n, key, ctrl, cs), cs.len()),
        key_spec(n, key, ctrl, cs).nav_order == n.nav_order,
{
    let m = if ctrl && key == Key::Char('c') {
        NavView { should_quit: true, ..n }
    } else {
        n
    };
    lemma_up_down_keep_wf(m, cs, 10);
    lemma_up_down_keep_wf(m, cs, 1);
}

} // verus!
