use semdiff::ast::normalize::normalize_body;
use semdiff::ast::symbol::{Parameter, Symbol, SymbolKind, Visibility};
use semdiff::diff::body_diff::{body_diff, is_formatting_only, DiffLineTag};
use semdiff::diff::change::{ChangeKind, DiffSummary};
use semdiff::diff::classifier::classify;
use semdiff::diff::cross_file::{detect_cross_file_moves, CrossMatchType};
use semdiff::diff::intent::strip_literals;
use semdiff::diff::matcher::match_symbols;
use semdiff::diff::pipeline::run_diff_pipeline;
use semdiff::output::text::diff_report;

fn hash(text: &str) -> [u8; 32] {
    blake3::hash(normalize_body(text).as_bytes()).into()
}

fn sym(name: &str, file: &str, body: &str, line: usize) -> Symbol {
    Symbol {
        kind: SymbolKind::Function,
        name: name.to_string(),
        qualified_name: name.to_string(),
        file_path: file.to_string(),
        line_range: (line, line + 2),
        signature: format!("fn {}()", name),
        body_hash: hash(body),
        body_text: body.to_string(),
        normalized_body: normalize_body(body),
        parent: None,
        visibility: Visibility::Public,
        parameters: Vec::new(),
        return_type: None,
    }
}

#[test]
fn classify_body_change() {
    let old = sym("run", "a.rs", "fn run() { x }", 1);
    let new = sym("run", "a.rs", "fn run() { y }", 1);
    assert!(matches!(classify(&old, &new), ChangeKind::BodyChanged));
}

#[test]
fn classify_move_and_rename() {
    let old = sym("run", "a.rs", "fn run() { x }", 1);
    let moved = sym("run", "b.rs", "fn run() { x }", 1);
    match classify(&old, &moved) {
        ChangeKind::Moved { from_file, to_file } => {
            assert_eq!(from_file, "a.rs");
            assert_eq!(to_file, "b.rs");
        }
        other => panic!("unexpected {:?}", other),
    }
    let moved_changed = sym("run", "b.rs", "fn run() { z }", 1);
    assert!(matches!(classify(&old, &moved_changed), ChangeKind::MovedAndModified { .. }));
    let renamed = sym("start", "a.rs", "fn run() { x }", 1);
    match classify(&old, &renamed) {
        ChangeKind::Renamed { old_name, new_name } => {
            assert_eq!(old_name, "run");
            assert_eq!(new_name, "start");
        }
        other => panic!("unexpected {:?}", other),
    }
}

#[test]
fn classify_signature_change() {
    let old = sym("run", "a.rs", "fn run() { x }", 1);
    let mut new = sym("run", "a.rs", "fn run(n: u32) { x }", 1);
    new.parameters.push(Parameter { name: "n".to_string(), type_annotation: Some("u32".to_string()) });
    match classify(&old, &new) {
        ChangeKind::SignatureChanged { details } => {
            assert_eq!(details.params_added.len(), 1);
            assert_eq!(details.params_removed.len(), 0);
        }
        other => panic!("unexpected {:?}", other),
    }
}

#[test]
fn change_kind_labels() {
    assert_eq!(ChangeKind::Added.label(), "ADD");
    assert_eq!(ChangeKind::BodyChanged.label(), "MOD");
    let r = ChangeKind::Renamed { old_name: "a".to_string(), new_name: "b".to_string() };
    assert_eq!(r.label(), "REN");
    assert_eq!(r.short_description(), "a -> b");
    assert_eq!(ChangeKind::Deleted.short_description(), "removed");
}

#[test]
fn match_by_qualified_name_then_body() {
    let old = vec![sym("a", "f.rs", "fn a() { 1 }", 1), sym("b", "f.rs", "fn b() { 2 }", 5), sym("gone", "f.rs", "fn gone() { 3 }", 9)];
    let new = vec![sym("b", "f.rs", "fn b() { 20 }", 1), sym("a", "f.rs", "fn a() { 1 }", 5), sym("fresh", "f.rs", "fn fresh() { 4 }", 9)];
    let r = match_symbols(&old, &new);
    let mut pairs: Vec<(usize, usize)> = r.matched.iter().map(|m| (m.0, m.1)).collect();
    pairs.sort();
    assert_eq!(pairs, vec![(0, 1), (1, 0)]);
    assert_eq!(r.unmatched_old, vec![2]);
    assert_eq!(r.unmatched_new, vec![2]);
}

#[test]
fn match_confidence_follows_the_phase() {
    let old = vec![sym("a", "f.rs", "fn a() { 1 }", 1), sym("b", "f.rs", "fn b() { 2 }", 5), sym("keep", "f.rs", "fn keep() { 5 }", 9)];
    let new = vec![sym("b", "f.rs", "fn b() { 20 }", 1), sym("a", "f.rs", "fn a() { 1 }", 5), sym("kept", "f.rs", "fn keep() { 5 }", 9)];
    let r = match_symbols(&old, &new);
    let mut found: Vec<(usize, usize, u64, u64)> = r.matched.iter().map(|m| (m.0, m.1, m.2.num, m.2.den)).collect();
    found.sort();
    assert_eq!(found, vec![(0, 1, 1, 1), (1, 0, 19, 20), (2, 2, 9, 10)]);
    assert!(r.matched.iter().all(|m| m.2.num <= m.2.den && m.2.den > 0));
}

#[test]
fn match_partitions_the_symbols() {
    let old = vec![sym("a", "f.rs", "fn a() { 1 }", 1), sym("b", "f.rs", "fn b() { 2 }", 5)];
    let new = vec![sym("c", "f.rs", "fn c() { 7 }", 1)];
    let r = match_symbols(&old, &new);
    let mut olds: Vec<usize> = r.matched.iter().map(|m| m.0).collect();
    olds.extend(r.unmatched_old.iter().copied());
    olds.sort();
    assert_eq!(olds, vec![0, 1]);
    let mut news: Vec<usize> = r.matched.iter().map(|m| m.1).collect();
    news.extend(r.unmatched_new.iter().copied());
    news.sort();
    assert_eq!(news, vec![0]);
}

#[test]
fn body_diff_tags_lines() {
    let d = body_diff("a\nb\n", "a\nc\n");
    let tags: Vec<DiffLineTag> = d.lines.iter().map(|l| l.tag).collect();
    assert_eq!(tags, vec![DiffLineTag::Equal, DiffLineTag::Delete, DiffLineTag::Insert]);
    assert_eq!(d.to_plain_text(), " a\n-b\n+c\n");
}

#[test]
fn formatting_only_changes() {
    assert!(is_formatting_only("a  +  b", "a+b"));
    assert!(!is_formatting_only("a + b", "a - b"));
}

#[test]
fn literals_are_blanked() {
    assert_eq!(strip_literals("let x = \"hi\" + 42;"), "let x = _ + _;");
    assert_eq!(strip_literals("f('a', 3.14)"), "f(_, _)");
}

#[test]
fn pipeline_reports_body_change_and_addition() {
    let old_files = vec![("src/a.rs".to_string(), vec![sym("run", "src/a.rs", "fn run() { 1 }", 1)])];
    let new_files = vec![(
        "src/a.rs".to_string(),
        vec![sym("run", "src/a.rs", "fn run() { 2 }", 1), sym("helper", "src/a.rs", "fn helper() { 3 }", 5)],
    )];
    let r = run_diff_pipeline(old_files, new_files, vec!["src/a.rs".to_string()], vec!["src/a.rs".to_string()]);
    assert_eq!(r.changes.len(), 2);
    assert!(matches!(r.changes[0].kind, ChangeKind::BodyChanged));
    assert!(matches!(r.changes[1].kind, ChangeKind::Added));
    assert_eq!(r.summary.total_changes, 2);
    assert_eq!(r.summary.added, 1);
    assert_eq!(r.summary.modified, 1);
    let s: DiffSummary = r.summary;
    assert_eq!(s.deleted, 0);
}

#[test]
fn pipeline_finds_moves_across_files() {
    let body = "fn shared() { let total = compute(1, 2); total * 3 }";
    let old_files = vec![("src/old.rs".to_string(), vec![sym("shared", "src/old.rs", body, 1)])];
    let new_files = vec![("src/new.rs".to_string(), vec![sym("shared", "src/new.rs", body, 1)])];
    let r = run_diff_pipeline(old_files, new_files, vec!["src/old.rs".to_string()], vec!["src/new.rs".to_string()]);
    assert_eq!(r.changes.len(), 1);
    match &r.changes[0].kind {
        ChangeKind::Moved { from_file, to_file } => {
            assert_eq!(from_file, "src/old.rs");
            assert_eq!(to_file, "src/new.rs");
        }
        other => panic!("unexpected {:?}", other),
    }
}

#[test]
fn identical_inputs_give_no_changes() {
    let files = || {
        vec![
            ("src/a.rs".to_string(), vec![sym("run", "src/a.rs", "fn run() { 1 }", 1), sym("stop", "src/a.rs", "fn stop() { 2 }", 5)]),
            ("src/b.rs".to_string(), vec![sym("go", "src/b.rs", "fn go() { run(); }", 1)]),
        ]
    };
    let paths = vec!["src/a.rs".to_string(), "src/b.rs".to_string()];
    let r = run_diff_pipeline(files(), files(), paths.clone(), paths);
    assert_eq!(r.changes.len(), 0);
    assert_eq!(r.summary.total_changes, 0);
}

#[test]
fn extraction_links_go_both_ways() {
    let old_body = "fn process(items: &[u32]) { let total = compute_total(items, 42); validate_all(items, total); write_report(total); }";
    let new_body = "let total = compute_total(items, 42); validate_all(items, total);";
    let moved_body = "fn process(items: &[u32]) { check_items(items); write_report(total); }";
    let old_files = vec![("src/a.rs".to_string(), vec![sym("process", "src/a.rs", old_body, 1)])];
    let new_files = vec![
        ("src/b.rs".to_string(), vec![sym("check_items", "src/b.rs", new_body, 1)]),
        ("src/c.rs".to_string(), vec![sym("process", "src/c.rs", moved_body, 1)]),
    ];
    let r = run_diff_pipeline(
        old_files,
        new_files,
        vec!["src/a.rs".to_string()],
        vec!["src/b.rs".to_string(), "src/c.rs".to_string()],
    );
    let kinds: Vec<&str> = r.changes.iter().map(|c| c.kind.label()).collect();
    assert_eq!(kinds, vec!["M+M", "EXT"]);
    assert_eq!(r.changes[0].related_changes, vec![1]);
    assert_eq!(r.changes[1].related_changes, vec![0]);
    for (pos, c) in r.changes.iter().enumerate() {
        assert_eq!(c.id, pos);
        for &other in &c.related_changes {
            assert!(r.changes[other].related_changes.contains(&pos));
        }
    }
}

#[test]
fn cross_file_matches_carry_their_reasons() {
    let body = "fn shared() { let total = compute(1, 2); total * 3 }";
    let old_body = "fn process(items: &[u32]) { let total = compute_total(items, 42); validate_all(items, total); write_report(total); }";
    let part = "let total = compute_total(items, 42); validate_all(items, total);";
    let old = vec![sym("shared", "src/old.rs", body, 1), sym("process", "src/a.rs", old_body, 5)];
    let new = vec![sym("shared", "src/new.rs", body, 1), sym("check_items", "src/b.rs", part, 1)];
    let found = detect_cross_file_moves(&old, &new);
    let rows: Vec<(usize, usize, u64, u64, CrossMatchType)> =
        found.iter().map(|m| (m.old_idx, m.new_idx, m.confidence.num, m.confidence.den, m.match_type)).collect();
    assert_eq!(
        rows,
        vec![(0, 0, 19, 20, CrossMatchType::ExactBody), (1, 1, 7, 10, CrossMatchType::Extracted)]
    );
}

#[test]
fn similar_bodies_match_at_seven_tenths() {
    let old = vec![sym("f", "a.rs", "abcdefghij", 1)];
    let new = vec![sym("g", "b.rs", "abcdefgXYZ", 1)];
    let found = detect_cross_file_moves(&old, &new);
    assert_eq!(found.len(), 1);
    assert_eq!((found[0].old_idx, found[0].new_idx), (0, 0));
    assert_eq!(found[0].match_type, CrossMatchType::SimilarBody);
    assert_eq!((found[0].confidence.num, found[0].confidence.den), (119, 200));
    let below = vec![sym("g", "b.rs", "abcdefWXYZ", 1)];
    assert!(detect_cross_file_moves(&old, &below).is_empty());
}

#[test]
fn empty_diff_report() {
    let r = run_diff_pipeline(Vec::new(), Vec::new(), Vec::new(), Vec::new());
    let lines = diff_report(&r);
    assert_eq!(lines[0], "=== Semantic Diff Summary ===");
    assert_eq!(lines.last().unwrap(), "No semantic changes detected.");
    assert_eq!(lines.len(), 5);
}

#[test]
fn diff_report_groups_by_category() {
    let old_files = vec![("src/a.rs".to_string(), vec![sym("run", "src/a.rs", "fn run() { 1 }", 1)])];
    let new_files = vec![("src/a.rs".to_string(), vec![sym("run", "src/a.rs", "fn run() { 2 }", 1)])];
    let r = run_diff_pipeline(old_files, new_files, vec!["src/a.rs".to_string()], vec!["src/a.rs".to_string()]);
    let lines = diff_report(&r);
    assert!(lines.contains(&"--- Body Modified (1) ---".to_string()));
    assert!(lines.iter().any(|l| l.starts_with("  [MOD] run")));
    assert!(lines.contains(&"       @ src/a.rs".to_string()));
}
