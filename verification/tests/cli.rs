use semdiff::cli::{Cli, DiffMode, OutputMode};

fn cli(range: Option<&str>, dirs: Option<Vec<&str>>) -> Cli {
    Cli {
        command: None,
        range: range.map(|r| r.to_string()),
        dirs: dirs.map(|d| d.iter().map(|s| s.to_string()).collect()),
        repo_analysis: false,
        impact_depth: 3,
        output: OutputMode::Text,
        llm_review: false,
        api_key: None,
        llm_provider: "anthropic".to_string(),
        model: None,
    }
}

fn git_range(mode: Result<DiffMode, String>) -> String {
    match mode {
        Ok(DiffMode::Git { range_spec }) => range_spec,
        other => panic!("expected a git range, got {:?}", other),
    }
}

#[test]
fn plain_head_means_last_commit() {
    assert_eq!(git_range(cli(Some("HEAD"), None).diff_mode()), "HEAD~1..HEAD");
}

#[test]
fn no_range_means_last_commit() {
    assert_eq!(git_range(cli(None, None).diff_mode()), "HEAD~1..HEAD");
}

#[test]
fn explicit_ranges_are_kept() {
    assert_eq!(git_range(cli(Some("main..feature"), None).diff_mode()), "main..feature");
    assert_eq!(git_range(cli(Some("HEAD~3"), None).diff_mode()), "HEAD~3");
}

#[test]
fn dirs_take_two_paths() {
    match cli(Some("HEAD"), Some(vec!["old", "new"])).diff_mode() {
        Ok(DiffMode::Dirs { old, new }) => {
            assert_eq!(old, "old");
            assert_eq!(new, "new");
        }
        other => panic!("expected dirs, got {:?}", other),
    }
    assert_eq!(cli(None, Some(vec!["only"])).diff_mode().unwrap_err(), "--dirs requires exactly 2 paths");
}
