use semdiff::ast::parser::ParseError;
use semdiff::ast::symbol::{Symbol, SymbolKind, Visibility};
use semdiff::diff::change::{ChangeKind, SemanticChange};
use semdiff::diff::sources::{files_are_comparable, files_to_load, parse_file_contents, parse_files_as, symbols_from_index};
use semdiff::git::{ChangedFile, FileStatus};
use semdiff::index::{gitignore_with_index, RepoIndex};
use semdiff::ratio::Ratio;
use semdiff::repo::analyze_from_contents;

fn changed_file(path: &str, status: FileStatus) -> ChangedFile {
    ChangedFile { path: path.to_string(), status }
}

#[test]
fn files_to_load_by_status() {
    let changed = vec![
        changed_file("a.rs", FileStatus::Added),
        changed_file("b.rs", FileStatus::Modified),
        changed_file("c.rs", FileStatus::Deleted),
        changed_file("d.rs", FileStatus::Renamed { old_path: "old/d.rs".to_string() }),
        changed_file("README.md", FileStatus::Modified),
    ];
    let (old, new) = files_to_load(&changed);
    assert_eq!(old, vec!["b.rs", "c.rs", "old/d.rs"]);
    assert_eq!(new, vec!["a.rs", "b.rs", "d.rs"]);
}

#[test]
fn parse_file_contents_reports_failures() {
    let contents = vec![
        ("a.rs".to_string(), b"fn a() {}\nfn b() {}".to_vec()),
        ("notes.txt".to_string(), b"hello".to_vec()),
        ("c.py".to_string(), b"def c():\n    pass\n".to_vec()),
    ];
    let (files, list, failed) = parse_file_contents(&contents);
    assert_eq!(list, vec!["a.rs", "c.py"]);
    assert_eq!(files.len(), 2);
    assert_eq!(files[0].1.len(), 2);
    assert_eq!(files[0].1[1].name, "b");
    assert_eq!(files[1].1[0].file_path, "c.py");
    assert_eq!(failed.len(), 1);
    assert_eq!(failed[0].0, "notes.txt");
    assert_eq!(failed[0].1, ParseError::UnsupportedFile);
    assert!(files_are_comparable(&files));
}

#[test]
fn index_from_contents_and_grouping() {
    let contents = vec![
        ("a.rs".to_string(), b"fn a() { b(); }\nfn b() {}".to_vec()),
        ("z.go".to_string(), b"package z\nfunc Z() { a() }\n".to_vec()),
    ];
    let idx = RepoIndex::from_contents("abc".to_string(), 7, 2, &contents);
    assert_eq!(idx.commit_hash, "abc");
    assert_eq!(idx.timestamp, 7);
    assert_eq!(idx.file_count, 2);
    assert_eq!(idx.symbols.len(), 3);
    assert_eq!(idx.call_refs.len(), 2);
    assert_eq!(idx.shingle_cache.len(), 3);
    assert_eq!(idx.shingle_cache[0].key, "a.rs:a");
    assert!(idx.is_current_for(Some("abc")));
    let (groups, list) = symbols_from_index(&idx, &["z.go".to_string(), "a.rs".to_string()]);
    assert_eq!(list, vec!["a.rs", "z.go"]);
    assert_eq!(groups[0].1.len(), 2);
    assert_eq!(groups[1].1[0].name, "Z");
    let (only_go, _) = symbols_from_index(&idx, &["z.go".to_string()]);
    assert_eq!(only_go.len(), 1);
}

fn sym(name: &str, file: &str) -> Symbol {
    Symbol {
        kind: SymbolKind::Function,
        name: name.to_string(),
        qualified_name: name.to_string(),
        file_path: file.to_string(),
        line_range: (1, 1),
        signature: String::new(),
        body_hash: [0; 32],
        body_text: String::new(),
        normalized_body: String::new(),
        parent: None,
        visibility: Visibility::Public,
        parameters: Vec::new(),
        return_type: None,
    }
}

#[test]
fn analysis_from_contents_finds_callers() {
    let contents = vec![
        ("a.rs".to_string(), b"fn a() { b(); }\nfn b() { let x = 1; }".to_vec()),
        ("c.rs".to_string(), b"fn c() { a(); }".to_vec()),
    ];
    let change = SemanticChange {
        id: 0,
        kind: ChangeKind::BodyChanged,
        old_symbol: Some(sym("b", "a.rs")),
        new_symbol: Some(sym("b", "a.rs")),
        confidence: Ratio { num: 1, den: 1 },
        body_diff: None,
        related_changes: Vec::new(),
        intent: None,
    };
    let a = analyze_from_contents(&contents, &[change], 2).unwrap();
    assert_eq!(a.call_graph_edges, 2);
    assert_eq!(a.total_repo_symbols, 3);
    let callers: Vec<(&str, usize)> =
        a.impact.affected_callers.iter().map(|c| (c.caller_symbol.as_str(), c.depth)).collect();
    assert_eq!(callers, vec![("a", 0), ("c", 1)]);
}

#[test]
fn gitignore_gets_the_index_directory_once() {
    assert_eq!(gitignore_with_index(None).unwrap(), ".semdiff/\n");
    assert_eq!(gitignore_with_index(Some("target/\n")).unwrap(), "target/\n.semdiff/\n");
    assert_eq!(gitignore_with_index(Some("target/")).unwrap(), "target/\n.semdiff/\n");
    assert_eq!(gitignore_with_index(Some("")).unwrap(), "\n.semdiff/\n");
    assert!(gitignore_with_index(Some("target/\n  .semdiff/ \r\nx")).is_none());
    assert!(gitignore_with_index(Some(".semdiff/")).is_none());
    assert!(gitignore_with_index(Some(".semdiff")).is_some());
}

#[test]
fn files_parsed_under_one_path_listed_under_another() {
    let files = vec![
        ("/tmp/old/lib.rs".to_string(), "lib.rs".to_string(), b"fn a() {}".to_vec()),
        ("/tmp/one.rs".to_string(), "".to_string(), b"fn b() {}".to_vec()),
        ("/tmp/old/x.txt".to_string(), "x.txt".to_string(), b"x".to_vec()),
    ];
    let (out, list, failed) = parse_files_as(&files);
    assert_eq!(list, vec!["lib.rs", ""]);
    assert_eq!(out[0].1[0].file_path, "lib.rs");
    assert_eq!(out[1].1[0].name, "b");
    assert_eq!(out[1].1[0].file_path, "");
    assert_eq!(failed, vec![("/tmp/old/x.txt".to_string(), ParseError::UnsupportedFile)]);
}
