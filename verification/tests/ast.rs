use semdiff::ast::call_refs::CallReference;
use semdiff::ast::is_supported;
use semdiff::ast::parser::{parse_file, parse_file_auto, ParseError};
use semdiff::ast::language::Language;
use semdiff::ast::symbol::{Symbol, SymbolKind, Visibility};
use semdiff::ast::tree::{tree_from_nodes, FlatNode};
use semdiff::ast::{extract_calls_from_bytes, extract_symbols_from_bytes, supported_paths, symbols_of_contents};
use semdiff::repo::call_graph::CallGraph;

fn names(syms: &[Symbol]) -> Vec<String> {
    syms.iter().map(|s| s.qualified_name.clone()).collect()
}

fn calls(refs: &[CallReference]) -> Vec<(String, String, usize)> {
    refs.iter().map(|r| (r.caller_name.clone(), r.callee_name.clone(), r.line)).collect()
}

const RUST_SRC: &str = "pub struct Point { x: i32 }
impl Point {
    pub fn new(x: i32) -> Self { Point { x } }
    fn helper(&self) -> i32 { compute(self.x) }
}
fn compute(v: i32) -> i32 { v + 1 }
const LIMIT: usize = 10;
";

#[test]
fn rust_symbols_from_bytes() {
    let syms = extract_symbols_from_bytes(RUST_SRC.as_bytes(), "src/point.rs").unwrap();
    assert_eq!(names(&syms), vec!["Point", "Point::new", "Point::helper", "compute", "LIMIT"]);
    assert_eq!(syms[0].kind, SymbolKind::Struct);
    assert_eq!(syms[0].visibility, Visibility::Public);
    assert_eq!(syms[0].line_range, (1, 1));
    assert_eq!(syms[1].kind, SymbolKind::Method);
    assert_eq!(syms[1].parent.as_deref(), Some("Point"));
    assert_eq!(syms[1].visibility, Visibility::Public);
    assert_eq!(syms[1].signature, "new(x: i32) -> Self");
    assert_eq!(syms[1].line_range, (3, 3));
    assert_eq!(syms[2].visibility, Visibility::Private);
    assert_eq!(syms[2].signature, "helper(&self) -> i32");
    assert_eq!(syms[3].kind, SymbolKind::Function);
    assert_eq!(syms[3].signature, "compute(v: i32) -> i32");
    assert_eq!(syms[3].body_text, "fn compute(v: i32) -> i32 { v + 1 }");
    assert_eq!(syms[3].file_path, "src/point.rs");
    assert_eq!(syms[4].kind, SymbolKind::Constant);
    assert_eq!(syms[4].line_range, (7, 7));
}

#[test]
fn rust_symbol_body_hash_follows_normalized_body() {
    let a = extract_symbols_from_bytes(b"fn f() { g(); }", "a.rs").unwrap();
    let b = extract_symbols_from_bytes(b"fn f() {\n    g();\n}", "b.rs").unwrap();
    let c = extract_symbols_from_bytes(b"fn f() { h(); }", "c.rs").unwrap();
    assert_eq!(a[0].normalized_body, b[0].normalized_body);
    assert_eq!(a[0].body_hash, b[0].body_hash);
    assert_ne!(a[0].body_hash, c[0].body_hash);
    assert_eq!(a[0].body_hash, *blake3::hash(a[0].normalized_body.as_bytes()).as_bytes());
}

#[test]
fn rust_calls_from_bytes() {
    let refs = extract_calls_from_bytes(RUST_SRC.as_bytes(), "src/point.rs").unwrap();
    assert_eq!(calls(&refs), vec![("Point::helper".to_string(), "compute".to_string(), 4)]);
    assert_eq!(refs[0].file_path, "src/point.rs");
}

const PY_SRC: &str = "class Greeter:
    def greet(self, name: str) -> str:
        return format_name(name)

def _private(x, y=2):
    pass
";

#[test]
fn python_symbols_from_bytes() {
    let syms = extract_symbols_from_bytes(PY_SRC.as_bytes(), "g.py").unwrap();
    assert_eq!(names(&syms), vec!["Greeter", "Greeter.greet", "_private"]);
    assert_eq!(syms[0].kind, SymbolKind::Class);
    assert_eq!(syms[0].line_range, (1, 3));
    assert_eq!(syms[1].kind, SymbolKind::Method);
    assert_eq!(syms[1].signature, "greet(name: str) -> str");
    assert_eq!(syms[1].visibility, Visibility::Public);
    assert_eq!(syms[2].kind, SymbolKind::Function);
    assert_eq!(syms[2].visibility, Visibility::Private);
    assert_eq!(syms[2].signature, "_private(x, y)");
}

#[test]
fn python_calls_from_bytes() {
    let refs = extract_calls_from_bytes(PY_SRC.as_bytes(), "g.py").unwrap();
    assert_eq!(calls(&refs), vec![("greet".to_string(), "format_name".to_string(), 3)]);
}

const TS_SRC: &str = "/** Adds. */
export function add(a: number, b?: number): number {
  return helper(a);
}
const double = (n: number) => n * 2;
class Box {
  open(): void {}
}
export default { name: \"x\" };
";

#[test]
fn typescript_symbols_from_bytes() {
    let syms = extract_symbols_from_bytes(TS_SRC.as_bytes(), "m.ts").unwrap();
    assert_eq!(names(&syms), vec!["add", "double", "Box", "Box.open", "default"]);
    assert_eq!(syms[0].kind, SymbolKind::Function);
    assert_eq!(syms[0].visibility, Visibility::Public);
    assert_eq!(syms[0].line_range, (1, 4));
    assert_eq!(syms[0].parameters.len(), 2);
    assert_eq!(syms[0].parameters[0].name, "a");
    assert_eq!(syms[0].parameters[1].name, "b");
    assert_eq!(syms[1].kind, SymbolKind::Function);
    assert_eq!(syms[1].visibility, Visibility::Private);
    assert_eq!(syms[1].body_text, "const double = (n: number) => n * 2;");
    assert_eq!(syms[2].kind, SymbolKind::Class);
    assert_eq!(syms[3].kind, SymbolKind::Method);
    assert_eq!(syms[3].parent.as_deref(), Some("Box"));
    assert_eq!(syms[4].kind, SymbolKind::Constant);
    assert_eq!(syms[4].visibility, Visibility::Public);
    assert_eq!(syms[4].line_range, (9, 9));
}

#[test]
fn typescript_calls_from_bytes() {
    let refs = extract_calls_from_bytes(TS_SRC.as_bytes(), "m.ts").unwrap();
    assert_eq!(calls(&refs), vec![("add".to_string(), "helper".to_string(), 3)]);
}

const GO_SRC: &str = "package main

type Server struct{}

func (s *Server) Start() error {
	return run()
}

func run() error { return nil }
";

#[test]
fn go_symbols_from_bytes() {
    let syms = extract_symbols_from_bytes(GO_SRC.as_bytes(), "main.go").unwrap();
    assert_eq!(names(&syms), vec!["Server", "Server::Start", "run"]);
    assert_eq!(syms[0].kind, SymbolKind::Struct);
    assert_eq!(syms[0].visibility, Visibility::Public);
    assert_eq!(syms[1].kind, SymbolKind::Method);
    assert_eq!(syms[1].visibility, Visibility::Public);
    assert_eq!(syms[1].line_range, (5, 7));
    assert_eq!(syms[2].visibility, Visibility::Private);
}

#[test]
fn go_calls_from_bytes() {
    let refs = extract_calls_from_bytes(GO_SRC.as_bytes(), "main.go").unwrap();
    assert_eq!(calls(&refs), vec![("Server::Start".to_string(), "run".to_string(), 6)]);
}

#[test]
fn unsupported_file_is_refused() {
    assert_eq!(extract_symbols_from_bytes(b"hello", "notes.txt").unwrap_err(), ParseError::UnsupportedFile);
    assert_eq!(extract_calls_from_bytes(b"hello", "notes").unwrap_err(), ParseError::UnsupportedFile);
    assert!(!is_supported("notes.txt"));
    assert!(is_supported("a/b.tsx"));
}

#[test]
fn svelte_script_is_parsed() {
    let src = b"<div></div>\n<script lang=\"ts\">\nfunction f() { g(); }\n</script>\n";
    let syms = extract_symbols_from_bytes(src, "App.svelte").unwrap();
    assert_eq!(names(&syms), vec!["f"]);
    assert_eq!(syms[0].line_range, (2, 2));
    let (_, lang, eff) = parse_file_auto(src, "App.svelte").unwrap();
    assert_eq!(lang, Language::Tsx);
    assert_eq!(eff.unwrap(), b"\nfunction f() { g(); }\n".to_vec());
}

#[test]
fn parse_file_gives_a_tree_of_the_source() {
    let t = parse_file(b"fn f() {}", Language::Rust).unwrap();
    assert_eq!(t.nodes[0].kind, "source_file");
    assert_eq!(t.nodes[0].end_byte, 9);
    assert_eq!(t.nodes[1].kind, "function_item");
    assert_eq!(t.nodes[1].parent, Some(0));
    let name = t.nodes[1].children.iter().copied().find(|&c| t.nodes[c].field.as_deref() == Some("name")).unwrap();
    assert_eq!(t.nodes[name].kind, "identifier");
    assert_eq!((t.nodes[name].start_byte, t.nodes[name].end_byte), (3, 4));
}

fn flat(kind: &str, depth: usize, start: usize, end: usize) -> FlatNode {
    FlatNode { kind: kind.to_string(), field: None, start_byte: start, end_byte: end, start_row: 0, end_row: 0, depth }
}

#[test]
fn tree_from_nodes_links_parents_siblings_and_children() {
    let nodes = vec![flat("root", 0, 0, 6), flat("a", 1, 0, 3), flat("a1", 2, 0, 1), flat("a2", 2, 1, 3), flat("b", 1, 3, 6)];
    let t = tree_from_nodes(&nodes, 6).unwrap();
    assert_eq!(t.nodes[0].children, vec![1, 4]);
    assert_eq!(t.nodes[1].children, vec![2, 3]);
    assert_eq!(t.nodes[3].parent, Some(1));
    assert_eq!(t.nodes[3].prev_sibling, Some(2));
    assert_eq!(t.nodes[4].parent, Some(0));
    assert_eq!(t.nodes[4].prev_sibling, Some(1));
    assert_eq!(t.nodes[2].prev_sibling, None);
    assert_eq!(t.nodes[0].parent, None);
    assert!(tree_from_nodes(&nodes, 5).is_none());
}

#[test]
fn contents_are_parsed_file_by_file() {
    let files = vec![
        ("a.rs".to_string(), b"fn a() { b(); }".to_vec()),
        ("notes.txt".to_string(), b"fn z() {}".to_vec()),
        ("b.py".to_string(), b"def b():\n    a()\n".to_vec()),
    ];
    let syms = symbols_of_contents(&files);
    assert_eq!(names(&syms), vec!["a", "b"]);
    let g = CallGraph::build(&files);
    assert_eq!(g.total_edges, 2);
    assert_eq!(supported_paths(&["a.rs".to_string(), "x.md".to_string(), "y.go".to_string()]), vec!["a.rs", "y.go"]);
}
