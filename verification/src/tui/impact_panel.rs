//! The impact panel: what the repository analysis says about the selected
//! change, or an overall summary when it says nothing about it.
use vstd::prelude::*;

use crate::llm::review::RiskLevel;
use crate::ratio::{percent, rounded_percent};
use crate::repo::impact::{
    callers_view, warnings_view, AffectedCaller, CallerView, ImpactAnalysis, PatternWarning,
    WarningView,
};
use crate::repo::similarity::{findings_view, findings_wf, SimilarCode, SimilarView};
use crate::repo::RepoAnalysis;
use crate::text::{decimal, push_str, str_eq, u128_to_string, usize_to_string};
use crate::tui::style::{lines_view, Color, LineSpans, StyledLine, StyledSpan, TextStyle};

verus! {

pub open spec fn plain_line(s: Seq<char>) -> LineSpans {
    seq![(s, TextStyle::plain_spec())]
}

/// Section headers: white and bold.
pub open spec fn header_line(s: Seq<char>) -> LineSpans {
    seq![(s, TextStyle::fg_bold_spec(Color::White))]
}

pub open spec fn warn_line(msg: Seq<char>) -> LineSpans {
    seq![("[WARN] "@, TextStyle::fg_spec(Color::Yellow)), (msg, TextStyle::plain_spec())]
}

pub open spec fn risk_tag(r: RiskLevel) -> Seq<char> {
    match r {
        RiskLevel::High => "HIGH"@,
        RiskLevel::Medium => "MED "@,
        RiskLevel::Low => "LOW "@,
    }
}

pub open spec fn risk_color(r: RiskLevel) -> Color {
    match r {
        RiskLevel::High => Color::Red,
        RiskLevel::Medium => Color::Yellow,
        RiskLevel::Low => Color::Green,
    }
}

pub open spec fn depth_text(d: usize) -> Seq<char> {
    if d > 0 {
        " (depth "@ + decimal(d as nat) + ")"@
    } else {
        Seq::empty()
    }
}

pub open spec fn caller_line(c: CallerView) -> LineSpans {
    seq![
        ("  ["@ + risk_tag(c.risk) + "]"@, TextStyle::fg_spec(risk_color(c.risk))),
        (" "@ + c.caller_symbol + " @ "@ + c.caller_file + ":"@ + decimal(c.caller_line as nat)
            + depth_text(c.depth), TextStyle::plain_spec()),
    ]
}

pub open spec fn similar_line(s: SimilarView) -> LineSpans {
    plain_line(
        "  ["@ + s.kind.label_text() + "] "@ + s.similar_symbol + " @ "@ + s.file_path + ":L"@
            + decimal(s.line_range.0 as nat) + "-"@ + decimal(s.line_range.1 as nat) + "  ("@
            + decimal(rounded_percent(s.similarity)) + "%)"@,
    )
}

pub open spec fn relevant_callers(cs: Seq<CallerView>, name: Seq<char>) -> Seq<CallerView>
    decreases cs.len(),
{
    if cs.len() == 0 {
        cs
    } else {
        let r = relevant_callers(cs.drop_last(), name);
        if cs.last().changed_callee == name {
            r.push(cs.last())
        } else {
            r
        }
    }
}

pub open spec fn relevant_similar(ss: Seq<SimilarView>, name: Seq<char>) -> Seq<SimilarView>
    decreases ss.len(),
{
    if ss.len() == 0 {
        ss
    } else {
        let r = relevant_similar(ss.drop_last(), name);
        if ss.last().changed_symbol == name {
            r.push(ss.last())
        } else {
            r
        }
    }
}

pub open spec fn relevant_warnings(ws: Seq<WarningView>, name: Seq<char>) -> Seq<WarningView>
    decreases ws.len(),
{
    if ws.len() == 0 {
        ws
    } else {
        let r = relevant_warnings(ws.drop_last(), name);
        if ws.last().changed_symbol == name {
            r.push(ws.last())
        } else {
            r
        }
    }
}

pub open spec fn counted(title: Seq<char>, n: nat) -> Seq<char> {
    title + " ("@ + decimal(n) + ")"@
}

pub open spec fn caller_section(rc: Seq<CallerView>) -> Seq<LineSpans> {
    if rc.len() == 0 {
        Seq::empty()
    } else {
        seq![header_line(counted("Affected Callers"@, rc.len()))] + rc.map_values(
            |c: CallerView| caller_line(c),
        ) + seq![plain_line(Seq::empty())]
    }
}

pub open spec fn similar_section(rs: Seq<SimilarView>) -> Seq<LineSpans> {
    if rs.len() == 0 {
        Seq::empty()
    } else {
        seq![header_line(counted("Similar Code"@, rs.len()))] + rs.map_values(
            |s: SimilarView| similar_line(s),
        ) + seq![plain_line(Seq::empty())]
    }
}

pub open spec fn warning_section(rw: Seq<WarningView>) -> Seq<LineSpans> {
    if rw.len() == 0 {
        Seq::empty()
    } else {
        seq![header_line(counted("Warnings"@, rw.len()))] + rw.map_values(
            |w: WarningView| warn_line(w.message),
        )
    }
}

/// A warning in the overall summary: a blank line, the warning, and where
/// the related code is.
pub open spec fn overall_warning(w: WarningView) -> Seq<LineSpans> {
    seq![
        plain_line(Seq::empty()),
        warn_line(w.message),
        plain_line(
            "       @ "@ + w.file_path + ":L"@ + decimal(w.line_range.0 as nat) + "-"@ + decimal(
                w.line_range.1 as nat,
            ),
        ),
    ]
}

pub open spec fn overall_warnings(ws: Seq<WarningView>) -> Seq<LineSpans>
    decreases ws.len(),
{
    if ws.len() == 0 {
        Seq::empty()
    } else {
        overall_warnings(ws.drop_last()) + overall_warning(ws.last())
    }
}

/// The lines of the impact panel for the change named `name`: the callers,
/// similar code and warnings about that name; when there are none, the
/// totals and the first five warnings.
pub open spec fn impact_lines_spec(a: ImpactAnalysis, name: Seq<char>) -> Seq<LineSpans> {
    let rc = relevant_callers(callers_view(a.affected_callers@), name);
    let rs = relevant_similar(findings_view(a.similar_code@), name);
    let ws = warnings_view(a.pattern_warnings@);
    let rw = relevant_warnings(ws, name);
    if rc.len() == 0 && rs.len() == 0 && rw.len() == 0 {
        let t = a.risk_summary;
        seq![
            seq![("No specific impact for selected change. Overall:"@, TextStyle::fg_spec(Color::DarkGray))],
            plain_line(Seq::empty()),
            plain_line(
                "Total: "@ + decimal(t.total_affected_callers as nat) + " affected callers, "@
                    + decimal(t.total_similar_code as nat) + " similar code, "@ + decimal(
                    t.total_pattern_warnings as nat,
                ) + " warnings"@,
            ),
        ] + overall_warnings(ws.take(if ws.len() < 5 { ws.len() as int } else { 5 }))
    } else {
        caller_section(rc) + similar_section(rs) + warning_section(rw)
    }
}

fn plain(s: String) -> (r: StyledLine)
    ensures
        r@ == plain_line(s@),
{
    StyledLine::single(s, TextStyle::plain())
}

fn warn(msg: &String) -> (r: StyledLine)
    ensures
        r@ == warn_line(msg@),
{
    let mut spans: Vec<StyledSpan> = Vec::new();
    spans.push(StyledSpan::from_str("[WARN] ", TextStyle::fg(Color::Yellow)));
    spans.push(StyledSpan::new(msg.clone(), TextStyle::plain()));
    let r = StyledLine::from_spans(spans);
    assert(r@ =~= warn_line(msg@));
    r
}

fn counted_header(title: &str, n: usize) -> (r: StyledLine)
    ensures
        r@ == header_line(counted(title@, n as nat)),
{
    let mut s = String::from_str(title);
    push_str(&mut s, " (");
    let d = usize_to_string(n);
    push_str(&mut s, d.as_str());
    push_str(&mut s, ")");
    StyledLine::single(s, TextStyle::fg_bold(Color::White))
}

fn caller_text(c: &AffectedCaller) -> (r: StyledLine)
    ensures
        r@ == caller_line(c@),
{
    let (tag, color) = match c.risk {
        RiskLevel::High => ("HIGH", Color::Red),
        RiskLevel::Medium => ("MED ", Color::Yellow),
        RiskLevel::Low => ("LOW ", Color::Green),
    };
    let mut first = String::from_str("  [");
    push_str(&mut first, tag);
    push_str(&mut first, "]");
    let mut second = String::from_str(" ");
    push_str(&mut second, c.caller_symbol.as_str());
    push_str(&mut second, " @ ");
    push_str(&mut second, c.caller_file.as_str());
    push_str(&mut second, ":");
    let line = usize_to_string(c.caller_line);
    push_str(&mut second, line.as_str());
    if c.depth > 0 {
        push_str(&mut second, " (depth ");
        let d = usize_to_string(c.depth);
        push_str(&mut second, d.as_str());
        push_str(&mut second, ")");
    } else {
        proof {
            assert(second@ + depth_text(c.depth) =~= second@);
        }
    }
    proof {
        assert(second@ =~= " "@ + c.caller_symbol@ + " @ "@ + c.caller_file@ + ":"@ + decimal(
            c.caller_line as nat,
        ) + depth_text(c.depth));
        assert(first@ =~= "  ["@ + risk_tag(c.risk) + "]"@);
    }
    let mut spans: Vec<StyledSpan> = Vec::new();
    spans.push(StyledSpan::new(first, TextStyle::fg(color)));
    spans.push(StyledSpan::new(second, TextStyle::plain()));
    let r = StyledLine::from_spans(spans);
    assert(r@ =~= caller_line(c@));
    r
}

fn similar_text(s: &SimilarCode) -> (r: StyledLine)
    requires
        s.similarity.wf(),
    ensures
        r@ == similar_line(s@),
{
    let mut t = String::from_str("  [");
    push_str(&mut t, s.kind.label());
    push_str(&mut t, "] ");
    push_str(&mut t, s.similar_symbol.as_str());
    push_str(&mut t, " @ ");
    push_str(&mut t, s.file_path.as_str());
    push_str(&mut t, ":L");
    let a = usize_to_string(s.line_range.0);
    push_str(&mut t, a.as_str());
    push_str(&mut t, "-");
    let b = usize_to_string(s.line_range.1);
    push_str(&mut t, b.as_str());
    push_str(&mut t, "  (");
    let p = u128_to_string(percent(&s.similarity));
    push_str(&mut t, p.as_str());
    push_str(&mut t, "%)");
    plain(t)
}

fn push_line(out: &mut Vec<StyledLine>, l: StyledLine)
    ensures
        lines_view(final(out)@) == lines_view(old(out)@).push(l@),
{
    let ghost before = lines_view(out@);
    let ghost lv = l@;
    out.push(l);
    assert(lines_view(out@) =~= before.push(lv));
}

/// The impact panel's lines for the change named `selected_name`.
pub fn impact_lines(analysis: &RepoAnalysis, selected_name: &str) -> (r: Vec<StyledLine>)
    requires
        findings_wf(findings_view(analysis.impact.similar_code@)),
    ensures
        lines_view(r@) == impact_lines_spec(analysis.impact, selected_name@),
{
    let a = &analysis.impact;
    let ghost name = selected_name@;
    let ghost cv = callers_view(a.affected_callers@);
    let ghost sv = findings_view(a.similar_code@);
    let ghost wv = warnings_view(a.pattern_warnings@);
    // the relevant entries, by index
    let mut rc: Vec<usize> = Vec::new();
    let mut i: usize = 0;
    proof {
        assert(cv.take(0) =~= Seq::<CallerView>::empty());
    }
    while i < a.affected_callers.len()
        invariant
            i <= cv.len(),
            name == selected_name@,
            cv == callers_view(a.affected_callers@),
            rc@.len() == relevant_callers(cv.take(i as int), name).len(),
            forall|k: int| 0 <= k < rc@.len() ==> #[trigger] rc@[k] < cv.len() && cv[rc@[k] as int]
                == relevant_callers(cv.take(i as int), name)[k],
        decreases a.affected_callers.len() - i,
    {
        proof {
            assert(cv.take(i + 1).drop_last() =~= cv.take(i as int));
            assert(cv.take(i + 1).last() == cv[i as int]);
        }
        assert(cv[i as int] == a.affected_callers@[i as int]@);
        let ghost prev = relevant_callers(cv.take(i as int), name);
        let ghost next = relevant_callers(cv.take(i + 1), name);
        assert(next == if cv[i as int].changed_callee == name {
            prev.push(cv[i as int])
        } else {
            prev
        });
        if str_eq(a.affected_callers[i].changed_callee.as_str(), selected_name) {
            rc.push(i);
            assert(next[prev.len() as int] == cv[i as int]);
        }
        i = i + 1;
    }
    proof {
        assert(cv.take(cv.len() as int) =~= cv);
    }
    let mut rs: Vec<usize> = Vec::new();
    i = 0;
    proof {
        assert(sv.take(0) =~= Seq::<SimilarView>::empty());
    }
    while i < a.similar_code.len()
        invariant
            i <= sv.len(),
            name == selected_name@,
            sv == findings_view(a.similar_code@),
            rs@.len() == relevant_similar(sv.take(i as int), name).len(),
            forall|k: int| 0 <= k < rs@.len() ==> #[trigger] rs@[k] < sv.len() && sv[rs@[k] as int]
                == relevant_similar(sv.take(i as int), name)[k],
        decreases a.similar_code.len() - i,
    {
        proof {
            assert(sv.take(i + 1).drop_last() =~= sv.take(i as int));
            assert(sv.take(i + 1).last() == sv[i as int]);
        }
        assert(sv[i as int] == a.similar_code@[i as int]@);
        let ghost prev = relevant_similar(sv.take(i as int), name);
        let ghost next = relevant_similar(sv.take(i + 1), name);
        assert(next == if sv[i as int].changed_symbol == name {
            prev.push(sv[i as int])
        } else {
            prev
        });
        if str_eq(a.similar_code[i].changed_symbol.as_str(), selected_name) {
            rs.push(i);
            assert(next[prev.len() as int] == sv[i as int]);
        }
        i = i + 1;
    }
    proof {
        assert(sv.take(sv.len() as int) =~= sv);
    }
    let mut rw: Vec<usize> = Vec::new();
    i = 0;
    proof {
        assert(wv.take(0) =~= Seq::<WarningView>::empty());
    }
    while i < a.pattern_warnings.len()
        invariant
            i <= wv.len(),
            name == selected_name@,
            wv == warnings_view(a.pattern_warnings@),
            rw@.len() == relevant_warnings(wv.take(i as int), name).len(),
            forall|k: int| 0 <= k < rw@.len() ==> #[trigger] rw@[k] < wv.len() && wv[rw@[k] as int]
                == relevant_warnings(wv.take(i as int), name)[k],
        decreases a.pattern_warnings.len() - i,
    {
        proof {
            assert(wv.take(i + 1).drop_last() =~= wv.take(i as int));
            assert(wv.take(i + 1).last() == wv[i as int]);
        }
        assert(wv[i as int] == a.pattern_warnings@[i as int]@);
        let ghost prev = relevant_warnings(wv.take(i as int), name);
        let ghost next = relevant_warnings(wv.take(i + 1), name);
        assert(next == if wv[i as int].changed_symbol == name {
            prev.push(wv[i as int])
        } else {
            prev
        });
        if str_eq(a.pattern_warnings[i].changed_symbol.as_str(), selected_name) {
            rw.push(i);
            assert(next[prev.len() as int] == wv[i as int]);
        }
        i = i + 1;
    }
    proof {
        assert(wv.take(wv.len() as int) =~= wv);
    }
    let ghost rcv = relevant_callers(cv, name);
    let ghost rsv = relevant_similar(sv, name);
    let ghost rwv = relevant_warnings(wv, name);
    let mut lines: Vec<StyledLine> = Vec::new();
    if rc.len() == 0 && rs.len() == 0 && rw.len() == 0 {
        push_line(&mut lines, StyledLine::single(
            String::from_str("No specific impact for selected change. Overall:"),
            TextStyle::fg(Color::DarkGray),
        ));
        push_line(&mut lines, plain(String::new()));
        let t = &a.risk_summary;
        let mut s = String::from_str("Total: ");
        let x = usize_to_string(t.total_affected_callers);
        push_str(&mut s, x.as_str());
        push_str(&mut s, " affected callers, ");
        let y = usize_to_string(t.total_similar_code);
        push_str(&mut s, y.as_str());
        push_str(&mut s, " similar code, ");
        let z = usize_to_string(t.total_pattern_warnings);
        push_str(&mut s, z.as_str());
        push_str(&mut s, " warnings");
        push_line(&mut lines, plain(s));
        let ghost head = lines_view(lines@);
        let n: usize = if a.pattern_warnings.len() < 5 {
            a.pattern_warnings.len()
        } else {
            5
        };
        let mut k: usize = 0;
        proof {
            assert(head + overall_warnings(wv.take(0)) =~= head);
        }
        while k < n
            invariant
                k <= n,
                n <= wv.len(),
                wv == warnings_view(a.pattern_warnings@),
                lines_view(lines@) == head + overall_warnings(wv.take(k as int)),
            decreases n - k,
        {
            let w = &a.pattern_warnings[k];
            assert(wv[k as int] == w@);
            proof {
                assert(wv.take(k + 1).drop_last() =~= wv.take(k as int));
            }
            push_line(&mut lines, plain(String::new()));
            push_line(&mut lines, warn(&w.message));
            let mut s = String::from_str("       @ ");
            push_str(&mut s, w.file_path.as_str());
            push_str(&mut s, ":L");
            let l0 = usize_to_string(w.line_range.0);
            push_str(&mut s, l0.as_str());
            push_str(&mut s, "-");
            let l1 = usize_to_string(w.line_range.1);
            push_str(&mut s, l1.as_str());
            push_line(&mut lines, plain(s));
            proof {
                assert(lines_view(lines@) =~= head + overall_warnings(wv.take(k + 1)));
            }
            k = k + 1;
        }
        proof {
            assert(lines_view(lines@) =~= impact_lines_spec(*a, name));
        }
        return lines;
    }
    // affected callers
    if rc.len() > 0 {
        push_line(&mut lines, counted_header("Affected Callers", rc.len()));
        let ghost head = lines_view(lines@);
        let mut k: usize = 0;
        while k < rc.len()
            invariant
                k <= rc@.len(),
                cv == callers_view(a.affected_callers@),
                rc@.len() == rcv.len(),
                rcv == relevant_callers(cv, name),
                forall|j: int| 0 <= j < rc@.len() ==> #[trigger] rc@[j] < cv.len() && cv[rc@[j] as int] == rcv[j],
                lines_view(lines@) == head + rcv.take(k as int).map_values(|c: CallerView| caller_line(c)),
            decreases rc.len() - k,
        {
            let idx = rc[k];
            assert(rc@[k as int] < cv.len());
            let c = &a.affected_callers[idx];
            assert(cv[idx as int] == c@);
            push_line(&mut lines, caller_text(c));
            proof {
                assert(rcv.take(k + 1).map_values(|c: CallerView| caller_line(c)) =~= rcv.take(
                    k as int,
                ).map_values(|c: CallerView| caller_line(c)).push(caller_line(rcv[k as int])));
            }
            k = k + 1;
        }
        push_line(&mut lines, plain(String::new()));
        proof {
            assert(rcv.take(rcv.len() as int) =~= rcv);
        }
    }
    let ghost after_callers = lines_view(lines@);
    proof {
        assert(after_callers =~= caller_section(rcv));
    }
    // similar code
    if rs.len() > 0 {
        push_line(&mut lines, counted_header("Similar Code", rs.len()));
        let ghost head = lines_view(lines@);
        let mut k: usize = 0;
        while k < rs.len()
            invariant
                k <= rs@.len(),
                sv == findings_view(a.similar_code@),
                findings_wf(sv),
                rs@.len() == rsv.len(),
                rsv == relevant_similar(sv, name),
                forall|j: int| 0 <= j < rs@.len() ==> #[trigger] rs@[j] < sv.len() && sv[rs@[j] as int] == rsv[j],
                lines_view(lines@) == head + rsv.take(k as int).map_values(|s: SimilarView| similar_line(s)),
            decreases rs.len() - k,
        {
            let idx = rs[k];
            assert(rs@[k as int] < sv.len());
            let s = &a.similar_code[idx];
            assert(sv[idx as int] == s@);
            assert(s.similarity.wf());
            push_line(&mut lines, similar_text(s));
            proof {
                assert(rsv.take(k + 1).map_values(|s: SimilarView| similar_line(s)) =~= rsv.take(
                    k as int,
                ).map_values(|s: SimilarView| similar_line(s)).push(similar_line(rsv[k as int])));
            }
            k = k + 1;
        }
        push_line(&mut lines, plain(String::new()));
        proof {
            assert(rsv.take(rsv.len() as int) =~= rsv);
        }
    }
    let ghost after_similar = lines_view(lines@);
    proof {
        assert(after_similar =~= caller_section(rcv) + similar_section(rsv));
    }
    // warnings
    if rw.len() > 0 {
        push_line(&mut lines, counted_header("Warnings", rw.len()));
        let ghost head = lines_view(lines@);
        let mut k: usize = 0;
        while k < rw.len()
            invariant
                k <= rw@.len(),
                wv == warnings_view(a.pattern_warnings@),
                rw@.len() == rwv.len(),
                rwv == relevant_warnings(wv, name),
                forall|j: int| 0 <= j < rw@.len() ==> #[trigger] rw@[j] < wv.len() && wv[rw@[j] as int] == rwv[j],
                lines_view(lines@) == head + rwv.take(k as int).map_values(|w: WarningView| warn_line(w.message)),
            decreases rw.len() - k,
        {
            let idx = rw[k];
            assert(rw@[k as int] < wv.len());
            let w = &a.pattern_warnings[idx];
            assert(wv[idx as int] == w@);
            push_line(&mut lines, warn(&w.message));
            proof {
                assert(rwv.take(k + 1).map_values(|w: WarningView| warn_line(w.message)) =~= rwv.take(
                    k as int,
                ).map_values(|w: WarningView| warn_line(w.message)).push(warn_line(rwv[k as int].message)));
            }
            k = k + 1;
        }
        proof {
            assert(rwv.take(rwv.len() as int) =~= rwv);
        }
    }
    proof {
        assert(lines_view(lines@) =~= caller_section(rcv) + similar_section(rsv) + warning_section(rwv));
    }
    lines
}

/// The impact panel's lines for the app's selected change (for a name that
/// nothing matches when no change is selected).
pub fn build_impact_lines(analysis: &RepoAnalysis, app: &crate::tui::app::App) -> (r: Vec<StyledLine>)
    requires
        findings_wf(findings_view(analysis.impact.similar_code@)),
    ensures
        lines_view(r@) == impact_lines_spec(
            analysis.impact,
            if app.selected_index < app.changes().len() {
                crate::diff::change::change_symbol_name(
                    app.changes()[app.selected_index as int].old_symbol,
                    app.changes()[app.selected_index as int].new_symbol,
                )
            } else {
                Seq::empty()
            },
        ),
{
    match app.selected_change() {
        Some(c) => {
            assert(app.changes()[app.selected_index as int] == c@);
            impact_lines(analysis, c.symbol_name())
        },
        None => {
            let empty = String::new();
            impact_lines(analysis, empty.as_str())
        },
    }
}

} // verus!
