use semdiff::ast::language::{is_supported, Language};
use semdiff::ast::levenshtein::levenshtein;
use semdiff::ast::normalize::normalize_body;
use semdiff::git::{parse_git_range, parse_name_status, FileStatus};
use semdiff::index::{batch_load_files, batch_request, parse_usize, BatchError, RepoIndex};
use semdiff::text::{padded_usize, u128_to_string, usize_to_string};

fn chars(s: &str) -> Vec<char> {
    s.chars().collect()
}

#[test]
fn levenshtein_examples() {
    assert_eq!(levenshtein(&chars("kitten"), &chars("sitting")), 3);
    assert_eq!(levenshtein(&chars(""), &chars("abc")), 3);
    assert_eq!(levenshtein(&chars("same"), &chars("same")), 0);
}

#[test]
fn levenshtein_is_symmetric() {
    let a = chars("flaw");
    let b = chars("lawn");
    assert_eq!(levenshtein(&a, &b), levenshtein(&b, &a));
    assert_eq!(levenshtein(&a, &b), 2);
}

#[test]
fn normalize_body_collapses_white_space() {
    assert_eq!(normalize_body("a  b\t\nc"), "a b c");
    assert_eq!(normalize_body("   padded   "), "padded");
}

#[test]
fn normalize_body_drops_comments() {
    assert_eq!(normalize_body("x // note\ny"), "x y");
    assert_eq!(normalize_body("x// note\ny"), "x y");
    assert_eq!(normalize_body("// only a note\ny"), "y");
    assert_eq!(normalize_body("a // c\n   b // d"), "a b");
    assert_eq!(normalize_body("a /* block */ b"), "a b");
}

#[test]
fn normalized_bodies_have_single_spaces() {
    for text in ["a // c\nb", "  f(x) {\n\t// step\n\n  g(); /* q */ \n}  ", "p\u{00A0}\u{3000}q"] {
        let r = normalize_body(text);
        assert_eq!(r, r.trim());
        assert!(r.chars().all(|c| c == ' ' || !c.is_whitespace()));
        assert!(!r.contains("  "));
    }
}

#[test]
fn detect_languages_by_extension() {
    assert_eq!(Language::detect("src/main.rs"), Some(Language::Rust));
    assert_eq!(Language::detect("cmd/app.go"), Some(Language::Go));
    assert_eq!(Language::detect("web/app.ts"), Some(Language::TypeScript));
    assert_eq!(Language::detect("web/view.tsx"), Some(Language::Tsx));
    assert_eq!(Language::detect("web/Page.svelte"), Some(Language::Tsx));
    assert_eq!(Language::detect("web/app.js"), Some(Language::JavaScript));
    assert_eq!(Language::detect("tool.py"), Some(Language::Python));
    assert_eq!(Language::detect("README.md"), None);
    assert_eq!(Language::detect("Makefile"), None);
}

#[test]
fn supported_files() {
    assert!(is_supported("lib.rs"));
    assert!(!is_supported("notes.txt"));
}

#[test]
fn git_range_with_two_refs() {
    let r = parse_git_range("main..feature");
    assert_eq!(r.old_ref, "main");
    assert_eq!(r.new_ref, "feature");
}

#[test]
fn git_range_with_one_ref_compares_with_head() {
    let r = parse_git_range("v1.2");
    assert_eq!(r.old_ref, "v1.2");
    assert_eq!(r.new_ref, "HEAD");
}

#[test]
fn git_range_splits_at_first_separator() {
    let r = parse_git_range("a..b..c");
    assert_eq!(r.old_ref, "a");
    assert_eq!(r.new_ref, "b..c");
}

#[test]
fn git_range_round_trip() {
    // a range written from two refs without ".." in the first reads back
    let text = format!("{}..{}", "release", "topic/x");
    let r = parse_git_range(&text);
    assert_eq!((r.old_ref.as_str(), r.new_ref.as_str()), ("release", "topic/x"));
}

#[test]
fn name_status_lines() {
    let out = "M\tsrc/a.rs\nA\tb.rs\nD\tc.rs\nR100\told.rs\tnew.rs\nX\tskip.rs\nbad\n";
    let files = parse_name_status(out);
    assert_eq!(files.len(), 4);
    assert_eq!(files[0].path, "src/a.rs");
    assert_eq!(files[0].status, FileStatus::Modified);
    assert_eq!(files[1].status, FileStatus::Added);
    assert_eq!(files[2].status, FileStatus::Deleted);
    assert_eq!(files[3].path, "new.rs");
    assert_eq!(files[3].status, FileStatus::Renamed { old_path: "old.rs".to_string() });
}

#[test]
fn decimal_strings() {
    assert_eq!(usize_to_string(0), "0");
    assert_eq!(usize_to_string(90210), "90210");
    assert_eq!(u128_to_string(340282366920938463463374607431768211455), "340282366920938463463374607431768211455");
    assert_eq!(padded_usize(7, 4), "   7");
    assert_eq!(padded_usize(12345, 4), "12345");
}

#[test]
fn parse_usize_like_str_parse() {
    assert_eq!(parse_usize(&chars("42")), Some(42));
    assert_eq!(parse_usize(&chars("+7")), Some(7));
    assert_eq!(parse_usize(&chars("")), None);
    assert_eq!(parse_usize(&chars("+")), None);
    assert_eq!(parse_usize(&chars("-1")), None);
    assert_eq!(parse_usize(&chars("1x")), None);
    assert_eq!(parse_usize(&chars("18446744073709551616")), None);
    assert_eq!(parse_usize(&chars("18446744073709551615")), Some(usize::MAX));
}

#[test]
fn batch_request_lines() {
    let files = vec!["a.rs".to_string(), "dir/b.go".to_string()];
    assert_eq!(batch_request("HEAD", &files), "HEAD:a.rs\nHEAD:dir/b.go\n");
}

#[test]
fn batch_reply_is_read_file_by_file() {
    let files = vec!["a.rs".to_string(), "gone.rs".to_string(), "b.rs".to_string()];
    let reply = b"1111 blob 3\nabc\nHEAD:gone.rs missing\n2222 blob 2\nxy\n";
    let loaded = batch_load_files(reply, &files).unwrap();
    assert_eq!(loaded.len(), 2);
    assert_eq!(loaded[0], ("a.rs".to_string(), b"abc".to_vec()));
    assert_eq!(loaded[1], ("b.rs".to_string(), b"xy".to_vec()));
}

#[test]
fn batch_reply_cut_short_is_an_error() {
    let files = vec!["a.rs".to_string()];
    let reply = b"1111 blob 10\nabc";
    assert_eq!(batch_load_files(reply, &files).unwrap_err(), BatchError::Truncated);
}

#[test]
fn batch_reply_with_bad_header_is_an_error() {
    let files = vec!["a.rs".to_string()];
    let reply = b"\xff\xfe blob 1\nx\n";
    assert_eq!(batch_load_files(reply, &files).unwrap_err(), BatchError::InvalidHeader);
}

#[test]
fn batch_reply_skips_unreadable_headers() {
    let files = vec!["a.rs".to_string(), "b.rs".to_string()];
    // a header with two fields, then one whose size does not parse
    let reply = b"short header\n3333 blob many\n";
    assert_eq!(batch_load_files(reply, &files).unwrap(), Vec::new());
}

#[test]
fn index_is_current_for_its_commit() {
    let index = RepoIndex {
        commit_hash: "abc123".to_string(),
        timestamp: 0,
        symbols: Vec::new(),
        call_refs: Vec::new(),
        file_count: 0,
        shingle_cache: Vec::new(),
    };
    assert!(index.is_current_for(Some("abc123")));
    assert!(!index.is_current_for(Some("def456")));
    assert!(!index.is_current_for(None));
}
