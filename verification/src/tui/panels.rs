//! The review panel, the detail panel's title, and the header and footer
//! lines of the view.
use vstd::prelude::*;

use crate::diff::change::{ChangeKind, ChangeKindView, DiffSummary};
use crate::git::{char_lines, split_lines, text_lines};
use crate::llm::review::{ReviewIssue, ReviewResult, RiskLevel};
use crate::repo::RepoAnalysis;
use crate::text::{chars_of, push_str, string_from_chars, usize_to_string, decimal};
use crate::tui::app::{review_for, App, BottomPanel};
use crate::tui::style::{lines_view, Color, LineSpans, StyledLine, StyledSpan, TextStyle};

verus! {

pub open spec fn plain(s: Seq<char>) -> LineSpans {
    seq![(s, TextStyle::plain_spec())]
}

pub open spec fn header(s: Seq<char>) -> LineSpans {
    seq![(s, TextStyle::fg_bold_spec(Color::White))]
}

/// The colour of a risk level.
pub open spec fn risk_style(r: RiskLevel) -> TextStyle {
    match r {
        RiskLevel::Low => TextStyle::fg_spec(Color::Green),
        RiskLevel::Medium => TextStyle::fg_spec(Color::Yellow),
        RiskLevel::High => TextStyle::fg_bold_spec(Color::Red),
    }
}

fn risk_style_of(r: RiskLevel) -> (s: TextStyle)
    ensures
        s == risk_style(r),
{
    match r {
        RiskLevel::Low => TextStyle::fg(Color::Green),
        RiskLevel::Medium => TextStyle::fg(Color::Yellow),
        RiskLevel::High => TextStyle::fg_bold(Color::Red),
    }
}

pub open spec fn bullets(items: Seq<Seq<char>>) -> Seq<LineSpans> {
    items.map_values(|x: Seq<char>| plain("  • "@ + x))
}

pub open spec fn issue_lines(i: (RiskLevel, Seq<char>, Option<Seq<char>>)) -> Seq<LineSpans> {
    seq![seq![("  ["@ + i.0.text() + "] "@, risk_style(i.0)), (i.1, TextStyle::plain_spec())]] + match i.2 {
        Some(s) => seq![plain("    → "@ + s)],
        None => Seq::empty(),
    }
}

pub open spec fn issues_lines(is: Seq<(RiskLevel, Seq<char>, Option<Seq<char>>)>) -> Seq<LineSpans>
    decreases is.len(),
{
    if is.len() == 0 {
        Seq::empty()
    } else {
        issues_lines(is.drop_last()) + issue_lines(is.last())
    }
}

pub open spec fn issue_view(i: ReviewIssue) -> (RiskLevel, Seq<char>, Option<Seq<char>>) {
    (i.severity, i.description@, match i.suggestion {
        Some(s) => Some(s@),
        None => None,
    })
}

/// The review panel's lines for a review: its risk, its summary, then its
/// observations, issues and test suggestions under headings when present.
pub open spec fn review_lines_spec(r: ReviewResult) -> Seq<LineSpans> {
    let obs = r.key_observations@.map_values(|s: String| s@);
    let issues = r.potential_issues@.map_values(|i: ReviewIssue| issue_view(i));
    let tests = r.test_suggestions@.map_values(|s: String| s@);
    seq![
        seq![("Risk: "@, TextStyle::plain_spec()), (r.risk_level.text(), risk_style(r.risk_level))],
        plain(Seq::empty()),
        header("Summary"@),
    ] + text_lines(r.summary@).map_values(|l: Seq<char>| plain(l)) + seq![plain(Seq::empty())] + (if obs.len()
        > 0 {
        seq![header("Key Observations"@)] + bullets(obs) + seq![plain(Seq::empty())]
    } else {
        Seq::empty()
    }) + (if issues.len() > 0 {
        seq![header("Potential Issues"@)] + issues_lines(issues) + seq![plain(Seq::empty())]
    } else {
        Seq::empty()
    }) + (if tests.len() > 0 {
        seq![header("Test Suggestions"@)] + bullets(tests)
    } else {
        Seq::empty()
    })
}

fn push_line(out: &mut Vec<StyledLine>, l: StyledLine)
    ensures
        lines_view(final(out)@) == lines_view(old(out)@).push(l@),
{
    let ghost before = lines_view(out@);
    let ghost lv = l@;
    out.push(l);
    assert(lines_view(out@) =~= before.push(lv));
}

fn plain_line(s: String) -> (r: StyledLine)
    ensures
        r@ == plain(s@),
{
    StyledLine::single(s, TextStyle::plain())
}

fn push_bullets(out: &mut Vec<StyledLine>, items: &Vec<String>)
    ensures
        lines_view(final(out)@) == lines_view(old(out)@) + bullets(items@.map_values(|s: String| s@)),
{
    let ghost start = lines_view(out@);
    let ghost iv = items@.map_values(|s: String| s@);
    let mut k: usize = 0;
    while k < items.len()
        invariant
            k <= items@.len(),
            iv == items@.map_values(|s: String| s@),
            lines_view(out@) == start + bullets(iv.take(k as int)),
        decreases items.len() - k,
    {
        let mut t = String::from_str("  • ");
        push_str(&mut t, items[k].as_str());
        push_line(out, plain_line(t));
        proof {
            assert(iv[k as int] == items@[k as int]@);
            assert(bullets(iv.take(k + 1)) =~= bullets(iv.take(k as int)).push(plain("  • "@ + iv[k as int])));
        }
        k = k + 1;
    }
    proof {
        assert(iv.take(iv.len() as int) =~= iv);
    }
}

/// The review panel's lines for a review.
pub fn build_review_lines(review: &ReviewResult) -> (r: Vec<StyledLine>)
    ensures
        lines_view(r@) == review_lines_spec(*review),
{
    let mut lines: Vec<StyledLine> = Vec::new();
    let mut spans: Vec<StyledSpan> = Vec::new();
    spans.push(StyledSpan::from_str("Risk: ", TextStyle::plain()));
    spans.push(StyledSpan::from_str(review.risk_level.as_text(), risk_style_of(review.risk_level)));
    let risk = StyledLine::from_spans(spans);
    assert(risk@ =~= seq![("Risk: "@, TextStyle::plain_spec()), (review.risk_level.text(), risk_style(review.risk_level))]);
    push_line(&mut lines, risk);
    push_line(&mut lines, plain_line(String::new()));
    push_line(&mut lines, StyledLine::single(String::from_str("Summary"), TextStyle::fg_bold(Color::White)));
    let ghost head = lines_view(lines@);
    let sc = chars_of(review.summary.as_str());
    let sl = split_lines(&sc);
    let ghost slv = char_lines(sl@);
    let mut k: usize = 0;
    while k < sl.len()
        invariant
            k <= sl@.len(),
            slv == char_lines(sl@),
            lines_view(lines@) == head + slv.take(k as int).map_values(|l: Seq<char>| plain(l)),
        decreases sl.len() - k,
    {
        push_line(&mut lines, plain_line(string_from_chars(sl[k].as_slice())));
        proof {
            assert(slv[k as int] == sl@[k as int]@);
            assert(slv.take(k + 1).map_values(|l: Seq<char>| plain(l)) =~= slv.take(k as int).map_values(|l: Seq<char>| plain(l)).push(plain(slv[k as int])));
        }
        k = k + 1;
    }
    proof {
        assert(slv.take(slv.len() as int) =~= slv);
    }
    push_line(&mut lines, plain_line(String::new()));
    let ghost s1 = lines_view(lines@);
    if review.key_observations.len() > 0 {
        push_line(&mut lines, StyledLine::single(String::from_str("Key Observations"), TextStyle::fg_bold(Color::White)));
        push_bullets(&mut lines, &review.key_observations);
        push_line(&mut lines, plain_line(String::new()));
    }
    let ghost s2 = lines_view(lines@);
    let ghost iv = review.potential_issues@.map_values(|i: ReviewIssue| issue_view(i));
    if review.potential_issues.len() > 0 {
        push_line(&mut lines, StyledLine::single(String::from_str("Potential Issues"), TextStyle::fg_bold(Color::White)));
        let ghost h = lines_view(lines@);
        let mut k: usize = 0;
        proof {
            assert(iv.take(0) =~= Seq::<(RiskLevel, Seq<char>, Option<Seq<char>>)>::empty());
            assert(h + issues_lines(iv.take(0)) =~= h);
        }
        while k < review.potential_issues.len()
            invariant
                k <= iv.len(),
                iv == review.potential_issues@.map_values(|i: ReviewIssue| issue_view(i)),
                lines_view(lines@) == h + issues_lines(iv.take(k as int)),
            decreases review.potential_issues.len() - k,
        {
            let issue = &review.potential_issues[k];
            assert(iv[k as int] == issue_view(*issue));
            let ghost before = lines_view(lines@);
            let mut tag = String::from_str("  [");
            push_str(&mut tag, issue.severity.as_text());
            push_str(&mut tag, "] ");
            let mut spans: Vec<StyledSpan> = Vec::new();
            spans.push(StyledSpan::new(tag, risk_style_of(issue.severity)));
            spans.push(StyledSpan::new(issue.description.clone(), TextStyle::plain()));
            let l = StyledLine::from_spans(spans);
            assert(l@ =~= issue_lines(iv[k as int])[0]);
            push_line(&mut lines, l);
            match &issue.suggestion {
                Some(s) => {
                    let mut t = String::from_str("    → ");
                    push_str(&mut t, s.as_str());
                    push_line(&mut lines, plain_line(t));
                },
                None => {},
            }
            proof {
                assert(lines_view(lines@) =~= before + issue_lines(iv[k as int]));
                assert(iv.take(k + 1).drop_last() =~= iv.take(k as int));
                assert(iv.take(k + 1).last() == iv[k as int]);
            }
            k = k + 1;
        }
        push_line(&mut lines, plain_line(String::new()));
        proof {
            assert(iv.take(iv.len() as int) =~= iv);
        }
    }
    let ghost s3 = lines_view(lines@);
    if review.test_suggestions.len() > 0 {
        push_line(&mut lines, StyledLine::single(String::from_str("Test Suggestions"), TextStyle::fg_bold(Color::White)));
        push_bullets(&mut lines, &review.test_suggestions);
    }
    proof {
        assert(lines_view(lines@) =~= review_lines_spec(*review));
    }
    lines
}

/// What the review panel shows.
pub enum ReviewPanel {
    /// A message in place of a review.
    Message(String),
    /// The lines of a review.
    Lines(Vec<StyledLine>),
}

/// The review panel: a loading message while a review is requested, else
/// the selected change's review or the overall one, else a hint on how to
/// get a review.
pub fn review_panel(app: &App) -> (r: ReviewPanel)
    ensures
        match r {
            ReviewPanel::Message(m) => m@ == (if app.loading_review {
                "Loading review from LLM..."@
            } else if app.llm_enabled {
                "Press 'r' to request LLM review for this change, 'R' for overall review"@
            } else {
                "LLM review not enabled. Use --llm-review flag with an API key"@
            }) && (!app.loading_review ==> review_for(app.reviews@, app.selected_index, 0) is None
                && app.overall_review is None),
            ReviewPanel::Lines(l) => !app.loading_review && lines_view(l@) == review_lines_spec(
                match review_for(app.reviews@, app.selected_index, 0) {
                    Some(x) => x,
                    None => app.overall_review->0,
                },
            ) && (review_for(app.reviews@, app.selected_index, 0) is Some || app.overall_review is Some),
        },
{
    if app.loading_review {
        return ReviewPanel::Message(String::from_str("Loading review from LLM..."));
    }
    let review = match app.current_review() {
        Some(r) => Some(r),
        None => match &app.overall_review {
            Some(r) => Some(r),
            None => None,
        },
    };
    match review {
        Some(r) => ReviewPanel::Lines(build_review_lines(r)),
        None => {
            if app.llm_enabled {
                ReviewPanel::Message(String::from_str("Press 'r' to request LLM review for this change, 'R' for overall review"))
            } else {
                ReviewPanel::Message(String::from_str("LLM review not enabled. Use --llm-review flag with an API key"))
            }
        },
    }
}

/// The detail panel's title for the selected change.
pub fn detail_title(app: &App) -> (r: &'static str)
    ensures
        r@ == (if app.selected_index < app.changes().len() {
            match app.changes()[app.selected_index as int].kind {
                ChangeKindView::Added => " New File "@,
                ChangeKindView::Deleted => " Deleted File "@,
                _ => " Side-by-Side Diff "@,
            }
        } else {
            " Diff "@
        }),
{
    match app.selected_change() {
        Some(c) => {
            assert(app.changes()[app.selected_index as int] == c@);
            match &c.kind {
                ChangeKind::Added => " New File ",
                ChangeKind::Deleted => " Deleted File ",
                _ => " Side-by-Side Diff ",
            }
        },
        None => " Diff ",
    }
}

/// The header line: the counts of the diff, and of the impact when there
/// is a repository analysis.
pub open spec fn header_spec(s: DiffSummary, impact: Option<(nat, nat)>) -> LineSpans {
    seq![
        (" semdiff "@, TextStyle { fg: Some(Color::Cyan), bg: Some(Color::DarkGray), bold: false }),
        ("  "@, TextStyle::plain_spec()),
        (decimal(s.total_changes as nat) + " changes"@, TextStyle::fg_spec(Color::White)),
        ("  "@, TextStyle::plain_spec()),
        ("+"@ + decimal(s.added as nat), TextStyle::fg_spec(Color::Green)),
        (" "@, TextStyle::plain_spec()),
        ("-"@ + decimal(s.deleted as nat), TextStyle::fg_spec(Color::Red)),
        (" "@, TextStyle::plain_spec()),
        ("~"@ + decimal((s.modified + s.signature_changed) as nat), TextStyle::fg_spec(Color::Yellow)),
        (" "@, TextStyle::plain_spec()),
        (">"@ + decimal(s.moved as nat), TextStyle::fg_spec(Color::Cyan)),
        (" "@, TextStyle::plain_spec()),
        ("^"@ + decimal(s.extracted as nat), TextStyle::fg_spec(Color::Magenta)),
    ] + match impact {
        Some((c, m)) => seq![
            ("  |  "@, TextStyle::plain_spec()),
            ("impact: "@ + decimal(c) + " callers, "@ + decimal(m) + " similar"@, TextStyle::fg_spec(Color::Yellow)),
        ],
        None => Seq::empty(),
    }
}

fn prefixed(p: &str, n: usize) -> (r: String)
    ensures
        r@ == p@ + decimal(n as nat),
{
    let mut s = String::from_str(p);
    push_str(&mut s, usize_to_string(n).as_str());
    s
}

/// The header line of the view.
pub fn render_header(app: &App) -> (r: StyledLine)
    requires
        app.diff_result.summary.modified + app.diff_result.summary.signature_changed <= usize::MAX,
    ensures
        r@ == header_spec(app.diff_result.summary, match app.repo_analysis {
            Some(a) => Some((a.impact.affected_callers@.len(), a.impact.similar_code@.len())),
            None => None,
        }),
{
    let s = &app.diff_result.summary;
    let mut spans: Vec<StyledSpan> = Vec::new();
    spans.push(StyledSpan::from_str(" semdiff ", TextStyle { fg: Some(Color::Cyan), bg: Some(Color::DarkGray), bold: false }));
    spans.push(StyledSpan::from_str("  ", TextStyle::plain()));
    let mut total = usize_to_string(s.total_changes);
    push_str(&mut total, " changes");
    spans.push(StyledSpan::new(total, TextStyle::fg(Color::White)));
    spans.push(StyledSpan::from_str("  ", TextStyle::plain()));
    spans.push(StyledSpan::new(prefixed("+", s.added), TextStyle::fg(Color::Green)));
    spans.push(StyledSpan::from_str(" ", TextStyle::plain()));
    spans.push(StyledSpan::new(prefixed("-", s.deleted), TextStyle::fg(Color::Red)));
    spans.push(StyledSpan::from_str(" ", TextStyle::plain()));
    spans.push(StyledSpan::new(prefixed("~", s.modified + s.signature_changed), TextStyle::fg(Color::Yellow)));
    spans.push(StyledSpan::from_str(" ", TextStyle::plain()));
    spans.push(StyledSpan::new(prefixed(">", s.moved), TextStyle::fg(Color::Cyan)));
    spans.push(StyledSpan::from_str(" ", TextStyle::plain()));
    spans.push(StyledSpan::new(prefixed("^", s.extracted), TextStyle::fg(Color::Magenta)));
    match &app.repo_analysis {
        Some(a) => {
            spans.push(StyledSpan::from_str("  |  ", TextStyle::plain()));
            let mut t = String::from_str("impact: ");
            push_str(&mut t, usize_to_string(a.impact.affected_callers.len()).as_str());
            push_str(&mut t, " callers, ");
            push_str(&mut t, usize_to_string(a.impact.similar_code.len()).as_str());
            push_str(&mut t, " similar");
            spans.push(StyledSpan::new(t, TextStyle::fg(Color::Yellow)));
        },
        None => {},
    }
    let r = StyledLine::from_spans(spans);
    assert(r@ =~= header_spec(app.diff_result.summary, match app.repo_analysis {
        Some(a) => Some((a.impact.affected_callers@.len(), a.impact.similar_code@.len())),
        None => None,
    }));
    r
}

/// The footer line: the keys, the bottom panel's name, and the status
/// message.
pub open spec fn footer_spec(bottom: BottomPanel, status: Option<Seq<char>>) -> LineSpans {
    let key = TextStyle::fg_spec(Color::Cyan);
    let p = TextStyle::plain_spec();
    seq![
        (" q"@, key), (":quit "@, p),
        ("Tab"@, key), (":focus "@, p),
        ("j/k"@, key), (":nav "@, p),
        ("h/l"@, key), (":scroll "@, p),
        ("v"@, key), (":"@ + match bottom { BottomPanel::Review => "review"@, BottomPanel::Impact => "impact"@ } + " "@, p),
        ("b"@, key), (":switch "@, p),
        ("z"@, key), (":fold "@, p),
        match status {
            Some(m) => (m, TextStyle::fg_spec(Color::Yellow)),
            None => (Seq::empty(), p),
        },
    ]
}

/// The footer line of the view.
pub fn render_footer(app: &App) -> (r: StyledLine)
    ensures
        r@ == footer_spec(app.bottom_panel, match app.status_message {
            Some(m) => Some(m@),
            None => None,
        }),
{
    let key = TextStyle::fg(Color::Cyan);
    let p = TextStyle::plain();
    let mut spans: Vec<StyledSpan> = Vec::new();
    spans.push(StyledSpan::from_str(" q", key));
    spans.push(StyledSpan::from_str(":quit ", p));
    spans.push(StyledSpan::from_str("Tab", key));
    spans.push(StyledSpan::from_str(":focus ", p));
    spans.push(StyledSpan::from_str("j/k", key));
    spans.push(StyledSpan::from_str(":nav ", p));
    spans.push(StyledSpan::from_str("h/l", key));
    spans.push(StyledSpan::from_str(":scroll ", p));
    spans.push(StyledSpan::from_str("v", key));
    let mut b = String::from_str(":");
    push_str(&mut b, match app.bottom_panel {
        BottomPanel::Review => "review",
        BottomPanel::Impact => "impact",
    });
    push_str(&mut b, " ");
    spans.push(StyledSpan::new(b, p));
    spans.push(StyledSpan::from_str("b", key));
    spans.push(StyledSpan::from_str(":switch ", p));
    spans.push(StyledSpan::from_str("z", key));
    spans.push(StyledSpan::from_str(":fold ", p));
    match &app.status_message {
        Some(m) => spans.push(StyledSpan::new(m.clone(), TextStyle::fg(Color::Yellow))),
        None => spans.push(StyledSpan::new(String::new(), p)),
    }
    let r = StyledLine::from_spans(spans);
    assert(r@ =~= footer_spec(app.bottom_panel, match app.status_message {
        Some(m) => Some(m@),
        None => None,
    }));
    r
}

} // verus!
