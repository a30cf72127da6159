use semdiff::ast::normalize::normalize_body;
use semdiff::ast::symbol::{Symbol, SymbolKind, Visibility};
use semdiff::diff::change::{ChangeKind, DiffResult, DiffSummary, SemanticChange};
use semdiff::llm::review::{ReviewIssue, ReviewResult, RiskLevel};
use semdiff::ratio::Ratio;
use semdiff::tui::app::{build_nav_order, App, BottomPanel, Key, PanelFocus};
use semdiff::tui::panels::{build_review_lines, detail_title, render_footer};
use semdiff::tui::sidebyside::{
    build_aligned_rows, expand_tabs, find_scroll_vline, render_border_bottom, render_border_top,
    side_by_side, AlignedRow,
};
use semdiff::tui::style::{Color, StyledLine, TextStyle};
use semdiff::tui::summary_panel::{build_grouped_items, selected_row, shorten_path};

fn sym(name: &str, file: &str, line: usize) -> Symbol {
    let body = format!("fn {}() {{}}", name);
    Symbol {
        kind: SymbolKind::Function,
        name: name.to_string(),
        qualified_name: name.to_string(),
        file_path: file.to_string(),
        line_range: (line, line + 1),
        signature: format!("fn {}()", name),
        body_hash: blake3::hash(body.as_bytes()).into(),
        body_text: body.clone(),
        normalized_body: normalize_body(&body),
        parent: None,
        visibility: Visibility::Public,
        parameters: Vec::new(),
        return_type: None,
    }
}

fn added(id: usize, name: &str, file: &str, line: usize) -> SemanticChange {
    SemanticChange {
        id,
        kind: ChangeKind::Added,
        old_symbol: None,
        new_symbol: Some(sym(name, file, line)),
        confidence: Ratio::new(1, 1),
        body_diff: None,
        related_changes: Vec::new(),
        intent: None,
    }
}

fn result(changes: Vec<SemanticChange>) -> DiffResult {
    DiffResult { changes, old_files: Vec::new(), new_files: Vec::new(), summary: DiffSummary::default() }
}

fn texts(l: &StyledLine) -> String {
    l.spans.iter().map(|s| s.text.as_str()).collect()
}

#[test]
fn nav_order_groups_changes_by_file() {
    let d = result(vec![added(0, "a", "x.rs", 1), added(1, "b", "y.rs", 1), added(2, "c", "x.rs", 9)]);
    assert_eq!(build_nav_order(&d), vec![0, 2, 1]);
}

#[test]
fn new_app_selects_first_change_in_order() {
    let d = result(vec![added(0, "a", "x.rs", 10), added(1, "b", "y.rs", 1)]);
    let app = App::new(d, false, None);
    assert_eq!(app.selected_index, 0);
    assert_eq!(app.detail_scroll, 7);
    assert_eq!(app.panel_focus, PanelFocus::Summary);
    assert_eq!(app.bottom_panel, BottomPanel::Review);
    assert!(!app.bottom_visible);
}

#[test]
fn next_then_prev_returns_to_the_start() {
    let d = result(vec![added(0, "a", "x.rs", 10), added(1, "b", "y.rs", 20), added(2, "c", "z.rs", 2)]);
    let mut app = App::new(d, false, None);
    app.handle_key(Key::Down, false);
    assert_eq!(app.selected_index, 1);
    assert_eq!(app.detail_scroll, 17);
    app.handle_key(Key::Char('k'), false);
    assert_eq!(app.selected_index, 0);
    assert_eq!(app.nav_pos, 0);
    assert_eq!(app.detail_scroll, 7);
}

#[test]
fn selection_stops_at_the_ends() {
    let d = result(vec![added(0, "a", "x.rs", 1), added(1, "b", "y.rs", 1)]);
    let mut app = App::new(d, false, None);
    app.handle_key(Key::Up, false);
    assert_eq!(app.nav_pos, 0);
    app.handle_key(Key::PageDown, false);
    assert_eq!(app.nav_pos, 1);
    app.handle_key(Key::Home, false);
    assert_eq!(app.nav_pos, 0);
    app.handle_key(Key::End, false);
    assert_eq!(app.selected_index, 1);
}

#[test]
fn keys_scroll_the_focused_panel() {
    let d = result(vec![added(0, "a", "x.rs", 1)]);
    let mut app = App::new(d, false, None);
    app.handle_key(Key::Tab, false);
    assert_eq!(app.panel_focus, PanelFocus::Detail);
    app.handle_key(Key::Char('j'), false);
    app.handle_key(Key::Char('l'), false);
    assert_eq!(app.detail_scroll, 1);
    assert_eq!(app.detail_h_scroll, 4);
    app.handle_key(Key::Left, false);
    app.handle_key(Key::Left, false);
    assert_eq!(app.detail_h_scroll, 0);
    app.handle_key(Key::Tab, false);
    assert_eq!(app.panel_focus, PanelFocus::Summary);
}

#[test]
fn toggling_the_bottom_panel_twice() {
    let d = result(vec![added(0, "a", "x.rs", 1)]);
    let mut app = App::new(d, false, None);
    app.handle_key(Key::Char('v'), false);
    assert!(app.bottom_visible);
    app.handle_key(Key::Tab, false);
    app.handle_key(Key::Tab, false);
    assert_eq!(app.panel_focus, PanelFocus::Review);
    app.handle_key(Key::Char('b'), false);
    assert_eq!(app.bottom_panel, BottomPanel::Impact);
    assert_eq!(app.panel_focus, PanelFocus::Impact);
    app.handle_key(Key::Char('b'), false);
    assert_eq!(app.bottom_panel, BottomPanel::Review);
    app.handle_key(Key::Char('v'), false);
    assert!(!app.bottom_visible);
    assert_eq!(app.panel_focus, PanelFocus::Summary);
}

#[test]
fn quitting() {
    let d = result(Vec::new());
    let mut app = App::new(d, false, None);
    app.handle_key(Key::Char('c'), true);
    assert!(app.should_quit);
    let mut other = App::new(result(Vec::new()), false, None);
    other.handle_key(Key::Char('q'), false);
    assert!(other.should_quit);
}

#[test]
fn shortened_paths() {
    assert_eq!(shorten_path("a/b/c/d/e.rs"), "c/d/e.rs");
    assert_eq!(shorten_path("b/c/d.rs"), "b/c/d.rs");
    assert_eq!(shorten_path("file.rs"), "file.rs");
    assert_eq!(shorten_path("/abs/x/y/z.rs"), "x/y/z.rs");
}

#[test]
fn grouped_items_and_selection() {
    let d = result(vec![added(0, "a", "x.rs", 1), added(1, "b", "y.rs", 1), added(2, "c", "x.rs", 9)]);
    let app = App::new(d, false, None);
    let (items, map) = build_grouped_items(&app);
    assert_eq!(map, vec![None, Some(0), Some(2), None, Some(1)]);
    assert_eq!(texts(&items[0]), "📁 x.rs (2)");
    assert_eq!(texts(&items[1]), "  [ADD] a");
    assert!(items[1].spans[3].style.bold);
    assert!(!items[2].spans[3].style.bold);
    assert_eq!(selected_row(&map, 2), 2);
    assert_eq!(selected_row(&map, 7), 0);
}

#[test]
fn tabs_expand_to_four_columns() {
    let t: Vec<char> = "a\tbc\td".chars().collect();
    let e: String = expand_tabs(&t).into_iter().collect();
    assert_eq!(e, "a   bc  d");
}

#[test]
fn frame_lines() {
    let top = render_border_top(Color::Red, "label", 20, true);
    assert_eq!(texts(&top), format!("┌─ label{} ─┐", "─".repeat(9)));
    assert!(top.spans[0].style.bold);
    let cut = render_border_top(Color::Red, "abcdefgh", 20, false);
    assert_eq!(texts(&cut), format!("┌─ abcde{} ─┐", "─".repeat(9)));
    let narrow = render_border_top(Color::Red, "abc", 4, false);
    assert_eq!(texts(&narrow), "┌─  ─┐");
    let bottom = render_border_bottom(Color::Red, 5, false);
    assert_eq!(texts(&bottom), "└───┘");
    assert!(!bottom.spans[0].style.bold);
}

#[test]
fn aligned_columns_number_each_side_in_order() {
    let old = "one\ntwo\nthree\nfour\nfive\n";
    let new = "zero\none\nthree\nfour!\nfive\nsix\n";
    let rows = build_aligned_rows(old, new);
    let left: Vec<usize> = rows
        .iter()
        .filter_map(|r| match r {
            AlignedRow::Both { old_line, .. } | AlignedRow::OldOnly { old_line } => Some(*old_line),
            AlignedRow::NewOnly { .. } => None,
        })
        .collect();
    let right: Vec<usize> = rows
        .iter()
        .filter_map(|r| match r {
            AlignedRow::Both { new_line, .. } | AlignedRow::NewOnly { new_line } => Some(*new_line),
            AlignedRow::OldOnly { .. } => None,
        })
        .collect();
    assert_eq!(left, vec![1, 2, 3, 4, 5]);
    assert_eq!(right, vec![1, 2, 3, 4, 5, 6]);
}

#[test]
fn aligned_rows_follow_the_line_diff() {
    let rows = build_aligned_rows("a\nb\n", "a\nc\nd\n");
    let shape: Vec<String> = rows
        .iter()
        .map(|r| match r {
            AlignedRow::Both { old_line, new_line } => format!("={}/{}", old_line, new_line),
            AlignedRow::OldOnly { old_line } => format!("-{}", old_line),
            AlignedRow::NewOnly { new_line } => format!("+{}", new_line),
        })
        .collect();
    assert_eq!(shape, vec!["=1/1", "-2", "+2", "+3"]);
}

#[test]
fn side_by_side_frames_the_selected_symbol() {
    let change = added(0, "b", "f.rs", 2);
    let changes = vec![change];
    let new_text = "fn a() {}\nfn b() {}\nfn b2() {}\n".to_string();
    let view = side_by_side(&changes, 0, 0, 0, None, Some(new_text), 20, 6).unwrap();
    assert_eq!(texts(&view.old_header), " <- (none)");
    assert_eq!(texts(&view.new_header), " -> f.rs");
    let new_lines: Vec<String> = view.new_lines.iter().map(texts).collect();
    assert_eq!(new_lines[0], "    1 fn a() {}");
    assert!(new_lines[1].starts_with("┌─ + b"));
    assert_eq!(new_lines[2], "│   2 fn b() {}");
    assert_eq!(new_lines[3], "│   3 fn b2() {}");
    assert!(new_lines[4].starts_with("└"));
    assert_eq!(new_lines[5], "~");
    assert_eq!(view.old_lines.len(), 6);
}

#[test]
fn scroll_lands_above_the_text_line() {
    let lines = vec![
        StyledLine::single("┌─ x".to_string(), TextStyle::plain()),
        StyledLine::single("    1 a".to_string(), TextStyle::plain()),
        StyledLine::single("    2 b".to_string(), TextStyle::plain()),
        StyledLine::single("└─┘".to_string(), TextStyle::plain()),
    ];
    assert_eq!(find_scroll_vline(&lines, 0), 0);
    assert_eq!(find_scroll_vline(&lines, 1), 1);
    assert_eq!(find_scroll_vline(&lines, 5), 3);
}

#[test]
fn review_lines() {
    let review = ReviewResult {
        summary: "Looks fine.\nOne nit.".to_string(),
        risk_level: RiskLevel::Medium,
        key_observations: vec!["renames a helper".to_string()],
        potential_issues: vec![ReviewIssue {
            severity: RiskLevel::High,
            description: "may panic".to_string(),
            suggestion: Some("check bounds".to_string()),
        }],
        test_suggestions: Vec::new(),
    };
    let lines: Vec<String> = build_review_lines(&review).iter().map(texts).collect();
    assert_eq!(
        lines,
        vec![
            "Risk: MEDIUM",
            "",
            "Summary",
            "Looks fine.",
            "One nit.",
            "",
            "Key Observations",
            "  • renames a helper",
            "",
            "Potential Issues",
            "  [HIGH] may panic",
            "    → check bounds",
            "",
        ]
    );
}

#[test]
fn titles_and_footer() {
    let d = result(vec![added(0, "a", "x.rs", 1)]);
    let app = App::new(d, false, None);
    assert_eq!(detail_title(&app), " New File ");
    let footer = texts(&render_footer(&app));
    assert!(footer.starts_with(" q:quit Tab:focus"));
    assert!(footer.contains("v:review "));
}
