use semdiff::ast::call_refs::CallReference;
use semdiff::ast::normalize::normalize_body;
use semdiff::ast::symbol::{Symbol, SymbolKind, Visibility};
use semdiff::diff::change::{ChangeKind, SemanticChange};
use semdiff::diff::intent::{classify_intent, resolve_intent, ChangeIntent};
use semdiff::llm::client::{fallback_review, json_span, LlmProvider};
use semdiff::llm::review::RiskLevel;
use semdiff::output::text::repo_analysis_report;
use semdiff::ratio::{percent, Ratio};
use semdiff::repo::analyze_from_symbols;
use semdiff::repo::call_graph::CallGraph;
use semdiff::repo::impact::{analyze_impact, assess_change_risk};
use semdiff::repo::similarity::{compute_shingles, extract_stems, SimilarityIndex, SimilarityKind};
use semdiff::index::RepoIndex;

fn sym(name: &str, file: &str, body: &str) -> Symbol {
    Symbol {
        kind: SymbolKind::Function,
        name: name.to_string(),
        qualified_name: name.to_string(),
        file_path: file.to_string(),
        line_range: (1, 3),
        signature: format!("fn {}()", name),
        body_hash: blake3::hash(normalize_body(body).as_bytes()).into(),
        body_text: body.to_string(),
        normalized_body: normalize_body(body),
        parent: None,
        visibility: Visibility::Public,
        parameters: Vec::new(),
        return_type: None,
    }
}

fn call(caller: &str, callee: &str, file: &str, line: usize) -> CallReference {
    CallReference { caller_name: caller.to_string(), callee_name: callee.to_string(), file_path: file.to_string(), line }
}

fn changed(kind: ChangeKind, s: Symbol) -> SemanticChange {
    SemanticChange {
        id: 0,
        kind,
        old_symbol: None,
        new_symbol: Some(s),
        confidence: Ratio::new(1, 1),
        body_diff: None,
        related_changes: Vec::new(),
        intent: None,
    }
}

#[test]
fn transitive_callers_by_depth() {
    let mut g = CallGraph::new();
    g.add_ref(&call("b", "a", "x.rs", 3));
    g.add_ref(&call("c", "b", "y.rs", 7));
    g.add_ref(&call("d", "c", "z.rs", 9));
    let found = g.transitive_callers(&"a".to_string(), 1);
    let names: Vec<(String, usize)> = found.iter().map(|(e, d)| (e.caller.clone(), *d)).collect();
    assert_eq!(names, vec![("b".to_string(), 0), ("c".to_string(), 1)]);
    assert_eq!(g.callers_of(&"c".to_string()).len(), 1);
    assert_eq!(g.total_edges, 3);
}

#[test]
fn transitive_callers_stop_at_cycles() {
    let mut g = CallGraph::new();
    g.add_ref(&call("b", "a", "x.rs", 1));
    g.add_ref(&call("a", "b", "x.rs", 2));
    let found = g.transitive_callers(&"a".to_string(), 10);
    assert_eq!(found.len(), 2);
}

#[test]
fn transitive_callers_reach_each_edge_at_its_shortest_depth() {
    let mut g = CallGraph::new();
    for (c, e) in [("X", "A"), ("Y", "A"), ("X", "Y"), ("W", "X"), ("V", "W")] {
        g.add_ref(&call(c, e, "m.rs", 1));
    }
    let mut found: Vec<(String, String, usize)> = g
        .transitive_callers(&"A".to_string(), 2)
        .iter()
        .map(|(e, d)| (e.caller.clone(), e.callee.clone(), *d))
        .collect();
    found.sort();
    let mut expected: Vec<(String, String, usize)> = vec![
        ("X".to_string(), "A".to_string(), 0),
        ("Y".to_string(), "A".to_string(), 0),
        ("X".to_string(), "Y".to_string(), 1),
        ("W".to_string(), "X".to_string(), 1),
        ("V".to_string(), "W".to_string(), 2),
    ];
    expected.sort();
    assert_eq!(found, expected);
}

#[test]
fn risk_of_changes() {
    assert_eq!(assess_change_risk(&ChangeKind::Deleted), ("symbol deleted".to_string(), RiskLevel::High));
    assert_eq!(assess_change_risk(&ChangeKind::BodyChanged), ("body modified".to_string(), RiskLevel::Medium));
    assert_eq!(assess_change_risk(&ChangeKind::Added), ("new symbol".to_string(), RiskLevel::Low));
    let m = ChangeKind::Moved { from_file: "a.rs".to_string(), to_file: "b.rs".to_string() };
    assert_eq!(assess_change_risk(&m), ("moved a.rs -> b.rs".to_string(), RiskLevel::Medium));
}

#[test]
fn impact_sorts_and_deduplicates_callers() {
    let mut g = CallGraph::new();
    g.add_ref(&call("zeta", "target", "b.rs", 1));
    g.add_ref(&call("alpha", "target", "b.rs", 2));
    g.add_ref(&call("alpha", "target", "b.rs", 8));
    g.add_ref(&call("outer", "alpha", "c.rs", 4));
    let changes = vec![changed(ChangeKind::Deleted, sym("target", "t.rs", "fn target() {}"))];
    let a = analyze_impact(&changes, &g, &[], 3);
    let rows: Vec<(String, RiskLevel, usize)> =
        a.affected_callers.iter().map(|c| (c.caller_symbol.clone(), c.risk, c.depth)).collect();
    assert_eq!(
        rows,
        vec![("alpha".to_string(), RiskLevel::High, 0), ("outer".to_string(), RiskLevel::Medium, 1), ("zeta".to_string(), RiskLevel::High, 0)]
    );
    assert_eq!(a.risk_summary.high_risk_count, 2);
    assert_eq!(a.risk_summary.medium_risk_count, 1);
    assert_eq!(a.risk_summary.low_risk_count, 0);
    // every affected caller is counted under one risk level
    assert_eq!(
        a.risk_summary.high_risk_count + a.risk_summary.medium_risk_count + a.risk_summary.low_risk_count,
        a.risk_summary.total_affected_callers
    );
}

#[test]
fn shingles_and_stems() {
    let s = compute_shingles("abcab", 2);
    assert_eq!(s.len(), 3);
    assert!(compute_shingles("ab", 3).is_empty());
    assert_eq!(extract_stems("getUserName"), vec!["get", "getusername", "name", "user"]);
    assert_eq!(extract_stems("parse_http_request"), vec!["http", "parse", "parse_http_request", "request"]);
}

#[test]
fn exact_duplicates_are_found_and_warned_about() {
    let body = "fn helper() { let total = compute(1, 2); total * 3 }";
    let repo = vec![sym("helper", "a.rs", body), sym("helper_copy", "b.rs", body), sym("other", "c.rs", "fn other() { unrelated_work(); }")];
    let ix = SimilarityIndex::build(&repo);
    let found = ix.find_similar(&[sym("helper", "a.rs", body)], Ratio::new(3, 5));
    assert!(found.iter().any(|f| f.similar_symbol == "helper_copy" && f.kind == SimilarityKind::ExactDuplicate));
    assert!(found.iter().all(|f| f.similar_symbol != "helper"));
    let changes = vec![changed(ChangeKind::BodyChanged, sym("helper", "a.rs", body))];
    let analysis = analyze_from_symbols(&repo, &[], &changes, 2);
    assert!(analysis
        .impact
        .pattern_warnings
        .iter()
        .any(|w| w.message == "Exact duplicate of 'helper' exists but was not changed"));
    let report = repo_analysis_report(&analysis);
    assert_eq!(report[1], "=== Repo-Wide Impact Analysis ===");
    assert_eq!(report[2], "Scanned: 3 symbols, 0 call edges");
}

#[test]
fn exact_duplicate_reported_at_any_threshold() {
    let body = "fn helper() { let total = compute(1, 2); total * 3 }";
    let repo = vec![sym("helper", "a.rs", body), sym("helper_copy", "b.rs", body)];
    let ix = SimilarityIndex::build(&repo);
    for min in [Ratio::new(0, 1), Ratio::new(99, 100), Ratio::new(1, 1)] {
        let found = ix.find_similar(&[sym("helper", "a.rs", body)], min);
        assert!(found.iter().any(|f| f.changed_symbol == "helper"
            && f.similar_symbol == "helper_copy"
            && f.file_path == "b.rs"
            && f.kind == SimilarityKind::ExactDuplicate
            && f.similarity.num == 1
            && f.similarity.den == 1));
    }
}

#[test]
fn index_from_cache_equals_fresh_index() {
    let syms = vec![
        sym("getUserName", "src/a.rs", "fn getUserName() { lookup(user).name }"),
        sym("parse_request", "src/b.rs", "fn parse_request() { split(line); trim(line); }"),
        sym("tiny", "src/c.rs", "fn t(){}"),
    ];
    let cache = RepoIndex::compute_shingle_cache(&syms);
    let from_cache = SimilarityIndex::build_from_cache(&syms, &cache);
    let fresh = SimilarityIndex::build(&syms);
    assert_eq!(format!("{:?}", from_cache), format!("{:?}", fresh));
}

#[test]
fn intent_shares_lie_between_zero_and_one() {
    let kinds = vec![
        ChangeKind::Added,
        ChangeKind::Deleted,
        ChangeKind::BodyChanged,
        ChangeKind::Renamed { old_name: "parse".to_string(), new_name: "parse_input".to_string() },
    ];
    for k in kinds {
        let c = classify_intent(&changed(k, sym("validate_token", "auth.rs", "fn validate_token() { check(); }")));
        assert!(c.confidence.den > 0 && c.confidence.num <= c.confidence.den);
        assert!(c.secondary.iter().all(|(_, r)| r.den > 0 && r.num <= r.den));
    }
    let r = resolve_intent(&vec![(ChangeIntent::BugFix, 6), (ChangeIntent::Feature, 3), (ChangeIntent::Cleanup, -4)], Vec::new());
    assert_eq!(r.primary, ChangeIntent::BugFix);
    assert_eq!((r.confidence.num, r.confidence.den), (6, 6));
    assert_eq!(r.secondary.len(), 1);
    assert_eq!(r.secondary[0].0, ChangeIntent::Feature);
    assert_eq!((r.secondary[0].1.num, r.secondary[0].1.den), (3, 6));
}

#[test]
fn computed_cache_of_comparable_symbols_fits() {
    let syms = vec![sym("run", "src/a.rs", "fn run() { go(); stop(); go(); }")];
    let cache = RepoIndex::compute_shingle_cache(&syms);
    assert_eq!(cache.len(), syms.len());
    assert!(syms[0].is_comparable());
    assert!(cache[0].shingles.len() <= syms[0].normalized_body.chars().count());
}

#[test]
fn empty_impact_report() {
    let analysis = analyze_from_symbols(&[], &[], &[], 2);
    let report = repo_analysis_report(&analysis);
    assert_eq!(report.last().unwrap(), "No impact detected.");
}

#[test]
fn shingle_cache_keys() {
    let syms = vec![sym("run", "src/a.rs", "fn run() { go(); }")];
    let cache = RepoIndex::compute_shingle_cache(&syms);
    assert_eq!(cache[0].key, "src/a.rs:run");
    assert_eq!(cache[0].stems, vec!["run".to_string()]);
}

#[test]
fn percentages_round_half_to_even() {
    assert_eq!(percent(&Ratio::new(1, 3)), 33);
    assert_eq!(percent(&Ratio::new(2, 3)), 67);
    assert_eq!(percent(&Ratio::new(1, 200)), 0);
    assert_eq!(percent(&Ratio::new(3, 200)), 2);
}

#[test]
fn json_span_of_replies() {
    assert_eq!(json_span("Here: {\"a\": 1} done"), "{\"a\": 1}");
    assert_eq!(json_span("no json"), "no json");
    let r = fallback_review("plain words");
    assert_eq!(r.summary, "plain words");
    assert_eq!(r.risk_level, RiskLevel::Low);
}

#[test]
fn provider_from_config() {
    match LlmProvider::from_config("openai", None, "default-model") {
        LlmProvider::OpenAi { model } => assert_eq!(model, "gpt-4o"),
        other => panic!("unexpected {:?}", other),
    }
    match LlmProvider::from_config("anthropic", Some("m1".to_string()), "default-model") {
        LlmProvider::Anthropic { model } => assert_eq!(model, "m1"),
        other => panic!("unexpected {:?}", other),
    }
    match LlmProvider::from_config("other", None, "default-model") {
        LlmProvider::Anthropic { model } => assert_eq!(model, "default-model"),
        other => panic!("unexpected {:?}", other),
    }
}
