//! The command line, as plain values, and the diff mode it selects.
use vstd::prelude::*;

verus! {

/// The parsed command line.
#[derive(Debug)]
pub struct Cli {
    pub command: Option<Command>,
    /// Git range to diff (`HEAD~1..HEAD`, `main..feature`, or one ref).
    pub range: Option<String>,
    /// Two directories or files to compare instead of git refs.
    pub dirs: Option<Vec<String>>,
    /// Repository-wide impact analysis.
    pub repo_analysis: bool,
    /// Depth of the transitive caller search.
    pub impact_depth: usize,
    pub output: OutputMode,
    pub llm_review: bool,
    pub api_key: Option<String>,
    pub llm_provider: String,
    pub model: Option<String>,
}

/// Subcommands.
#[derive(Debug)]
pub enum Command {
    /// Build the index at a git ref.
    Index { git_ref: String },
}

#[derive(Debug, Clone, Copy, PartialEq, Eq, Structural)]
pub enum OutputMode {
    Tui,
    Json,
    Text,
}

/// What to compare.
#[derive(Debug)]
pub enum DiffMode {
    Git { range_spec: String },
    Dirs { old: String, new: String },
}

pub enum DiffModeView {
    Git { range_spec: Seq<char> },
    Dirs { old: Seq<char>, new: Seq<char> },
}

impl View for DiffMode {
    type V = DiffModeView;

    open spec fn view(&self) -> DiffModeView {
        match self {
            DiffMode::Git { range_spec } => DiffModeView::Git { range_spec: range_spec@ },
            DiffMode::Dirs { old, new } => DiffModeView::Dirs { old: old@, new: new@ },
        }
    }
}

/// The mode a command line selects: the two paths of `--dirs` (exactly
/// two, else an error), or else the git range; no range, or `HEAD` alone,
/// means the last commit, `HEAD~1..HEAD`.
pub open spec fn diff_mode_spec(
    range: Option<Seq<char>>,
    dirs: Option<Seq<Seq<char>>>,
) -> Result<DiffModeView, Seq<char>> {
    match dirs {
        Some(d) => if d.len() != 2 {
            Err("--dirs requires exactly 2 paths"@)
        } else {
            Ok(DiffModeView::Dirs { old: d[0], new: d[1] })
        },
        None => Ok(
            DiffModeView::Git {
                range_spec: match range {
                    Some(r) => if r == "HEAD"@ { "HEAD~1..HEAD"@ } else { r },
                    None => "HEAD~1..HEAD"@,
                },
            },
        ),
    }
}

pub open spec fn opt_str(o: Option<String>) -> Option<Seq<char>> {
    match o {
        Some(s) => Some(s@),
        None => None,
    }
}

pub open spec fn opt_strs(o: Option<Vec<String>>) -> Option<Seq<Seq<char>>> {
    match o {
        Some(v) => Some(v@.map_values(|s: String| s@)),
        None => None,
    }
}

pub open spec fn mode_result_view(r: Result<DiffMode, String>) -> Result<DiffModeView, Seq<char>> {
    match r {
        Ok(m) => Ok(m@),
        Err(e) => Err(e@),
    }
}

impl Cli {
    /// The diff mode: `--dirs OLD NEW`, or the git range (last commit by default).
    pub fn diff_mode(&self) -> (r: Result<DiffMode, String>)
        ensures
            mode_result_view(r) == diff_mode_spec(opt_str(self.range), opt_strs(self.dirs)),
    {
        match &self.dirs {
            Some(dirs) => {
                if dirs.len() != 2 {
                    return Err(String::from_str("--dirs requires exactly 2 paths"));
                }
                Ok(DiffMode::Dirs { old: dirs[0].clone(), new: dirs[1].clone() })
            },
            None => {
                let range_spec = match &self.range {
                    Some(r) => if crate::text::str_eq(r.as_str(), "HEAD") {
                        String::from_str("HEAD~1..HEAD")
                    } else {
                        r.clone()
                    },
                    None => String::from_str("HEAD~1..HEAD"),
                };
                Ok(DiffMode::Git { range_spec })
            },
        }
    }
}

} // verus!
