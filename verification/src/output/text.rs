//! The plain-text reports, as lines; printing them is the caller's part.
use vstd::prelude::*;

use crate::diff::body_diff::plain_text;
use crate::diff::change::{change_file_info, change_symbol_name, ChangeKind, ChangeKindView, ChangeView, DiffResult, SemanticChange};
use crate::git::{char_lines, split_lines, text_lines};
use crate::llm::review::RiskLevel;
use crate::ratio::{percent, rounded_percent};
use crate::repo::impact::{callers_view, warnings_view, CallerView, WarningView};
use crate::repo::similarity::{findings_view, findings_wf, SimilarView};
use crate::repo::RepoAnalysis;
use crate::text::{chars_of, decimal, push_str, string_from_chars, u128_to_string, usize_to_string};
use crate::tui::impact_panel::{depth_text, risk_tag};

verus! {

pub open spec fn strs_view(v: Seq<String>) -> Seq<Seq<char>> {
    v.map_values(|s: String| s@)
}

fn push_line(out: &mut Vec<String>, s: String)
    ensures
        strs_view(final(out)@) == strs_view(old(out)@).push(s@),
{
    let ghost before = strs_view(out@);
    let ghost sv = s@;
    out.push(s);
    assert(strs_view(out@) =~= before.push(sv));
}

// ------------------------------------------------------------ diff report

/// The report's change categories, in order, by position.
pub open spec fn in_category(k: ChangeKindView, cat: int) -> bool {
    if cat == 0 {
        k is Moved || k is MovedAndModified
    } else if cat == 1 {
        k is Extracted
    } else if cat == 2 {
        k is Inlined
    } else if cat == 3 {
        k is Renamed
    } else if cat == 4 {
        k is SignatureChanged
    } else if cat == 5 {
        k is BodyChanged
    } else if cat == 6 {
        k is VisibilityChanged
    } else if cat == 7 {
        k is Added
    } else {
        k is Deleted
    }
}

pub open spec fn category_title(cat: int) -> Seq<char> {
    if cat == 0 {
        "Moved"@
    } else if cat == 1 {
        "Extracted"@
    } else if cat == 2 {
        "Inlined"@
    } else if cat == 3 {
        "Renamed"@
    } else if cat == 4 {
        "Signature Changed"@
    } else if cat == 5 {
        "Body Modified"@
    } else if cat == 6 {
        "Visibility Changed"@
    } else if cat == 7 {
        "Added"@
    } else {
        "Deleted"@
    }
}

pub open spec fn in_cat(cs: Seq<ChangeView>, cat: int) -> Seq<ChangeView>
    decreases cs.len(),
{
    if cs.len() == 0 {
        cs
    } else {
        let r = in_cat(cs.drop_last(), cat);
        if in_category(cs.last().kind, cat) {
            r.push(cs.last())
        } else {
            r
        }
    }
}

/// ` (NN%)` after a change found with less than full confidence.
pub open spec fn confidence_text(c: ChangeView) -> Seq<char> {
    if c.confidence.num < c.confidence.den {
        " ("@ + decimal(rounded_percent(c.confidence)) + "%)"@
    } else {
        Seq::empty()
    }
}

pub open spec fn indent(s: Seq<char>) -> Seq<char> {
    "       "@ + s
}

/// The first ten lines of a change's body diff, and how many more there are.
pub open spec fn body_lines(c: ChangeView) -> Seq<Seq<char>> {
    match c.body_diff {
        None => Seq::empty(),
        Some(d) => {
            let ls = text_lines(plain_text(d));
            let shown = if ls.len() <= 10 { ls } else { ls.take(10) };
            shown.map_values(|l: Seq<char>| indent(l)) + if ls.len() > 10 {
                seq![indent("... ("@ + decimal((ls.len() - 10) as nat) + " more lines)"@)]
            } else {
                Seq::empty()
            }
        },
    }
}

/// A change in the report: its tag, name and confidence, its description
/// and file when there are any, the start of its body diff, a blank line.
pub open spec fn change_lines(c: ChangeView) -> Seq<Seq<char>> {
    let desc = c.kind.description();
    let file = change_file_info(c.old_symbol, c.new_symbol);
    seq!["  ["@ + c.kind.label() + "] "@ + change_symbol_name(c.old_symbol, c.new_symbol) + confidence_text(c)]
        + (if desc.len() > 0 { seq![indent(desc)] } else { Seq::empty() })
        + (if file.len() > 0 { seq![indent("@ "@ + file)] } else { Seq::empty() })
        + body_lines(c)
        + seq![Seq::empty()]
}

pub open spec fn changes_lines(cs: Seq<ChangeView>) -> Seq<Seq<char>>
    decreases cs.len(),
{
    if cs.len() == 0 {
        Seq::empty()
    } else {
        changes_lines(cs.drop_last()) + change_lines(cs.last())
    }
}

pub open spec fn category_lines(cs: Seq<ChangeView>, cat: int) -> Seq<Seq<char>> {
    let items = in_cat(cs, cat);
    if items.len() == 0 {
        Seq::empty()
    } else {
        seq!["--- "@ + category_title(cat) + " ("@ + decimal(items.len()) + ") ---"@] + changes_lines(items)
    }
}

pub open spec fn categories_lines(cs: Seq<ChangeView>, n: int) -> Seq<Seq<char>>
    decreases n,
{
    if n <= 0 {
        Seq::empty()
    } else {
        categories_lines(cs, n - 1) + category_lines(cs, n - 1)
    }
}

/// The report of a diff: the summary counts, then the changes by category.
pub open spec fn diff_report_spec(d: DiffResult) -> Seq<Seq<char>> {
    let s = d.summary;
    let head = seq![
        "=== Semantic Diff Summary ==="@,
        Seq::empty(),
        "Total changes: "@ + decimal(s.total_changes as nat) + "  (Added: "@ + decimal(s.added as nat)
            + ", Deleted: "@ + decimal(s.deleted as nat) + ", Renamed: "@ + decimal(s.renamed as nat)
            + ", Moved: "@ + decimal(s.moved as nat) + ", Extracted: "@ + decimal(s.extracted as nat)
            + ", Modified: "@ + decimal(s.modified as nat) + ")"@,
        Seq::empty(),
    ];
    let cs = crate::diff::changes_view(d.changes@);
    if cs.len() == 0 {
        head.push("No semantic changes detected."@)
    } else {
        head + categories_lines(cs, 9)
    }
}

fn kind_in_category(k: &ChangeKind, cat: usize) -> (r: bool)
    ensures
        r == in_category(k@, cat as int),
{
    match k {
        ChangeKind::Moved { .. } | ChangeKind::MovedAndModified { .. } => cat == 0,
        ChangeKind::Extracted { .. } => cat == 1,
        ChangeKind::Inlined { .. } => cat == 2,
        ChangeKind::Renamed { .. } => cat == 3,
        ChangeKind::SignatureChanged { .. } => cat == 4,
        ChangeKind::BodyChanged => cat == 5,
        ChangeKind::VisibilityChanged { .. } => cat == 6,
        ChangeKind::Added => cat == 7,
        ChangeKind::Deleted => cat >= 8,
    }
}

fn category_name(cat: usize) -> (r: &'static str)
    ensures
        r@ == category_title(cat as int),
{
    if cat == 0 {
        "Moved"
    } else if cat == 1 {
        "Extracted"
    } else if cat == 2 {
        "Inlined"
    } else if cat == 3 {
        "Renamed"
    } else if cat == 4 {
        "Signature Changed"
    } else if cat == 5 {
        "Body Modified"
    } else if cat == 6 {
        "Visibility Changed"
    } else if cat == 7 {
        "Added"
    } else {
        "Deleted"
    }
}

fn indented(s: &str) -> (r: String)
    ensures
        r@ == indent(s@),
{
    let mut t = String::from_str("       ");
    push_str(&mut t, s);
    t
}

#[verifier::rlimit(40)]
#[verifier::spinoff_prover]
fn push_change_lines(out: &mut Vec<String>, change: &SemanticChange)
    requires
        change.confidence.wf(),
    ensures
        strs_view(final(out)@) == strs_view(old(out)@) + change_lines(change@),
{
    let ghost start = strs_view(out@);
    let ghost c = change@;
    let mut first = String::from_str("  [");
    push_str(&mut first, change.kind.label());
    push_str(&mut first, "] ");
    push_str(&mut first, change.symbol_name());
    if change.confidence.num < change.confidence.den {
        push_str(&mut first, " (");
        let p = u128_to_string(percent(&change.confidence));
        push_str(&mut first, p.as_str());
        push_str(&mut first, "%)");
    }
    proof {
        assert(first@ =~= "  ["@ + c.kind.label() + "] "@ + change_symbol_name(c.old_symbol, c.new_symbol) + confidence_text(c));
    }
    push_line(out, first);
    let desc = change.kind.short_description();
    let dc = chars_of(desc.as_str());
    if dc.len() > 0 {
        push_line(out, indented(desc.as_str()));
    }
    let file = change.file_info();
    let fc = chars_of(file.as_str());
    if fc.len() > 0 {
        let mut t = String::from_str("@ ");
        push_str(&mut t, file.as_str());
        push_line(out, indented(t.as_str()));
    }
    let ghost mid = strs_view(out@);
    proof {
        assert(mid =~= start + (seq!["  ["@ + c.kind.label() + "] "@ + change_symbol_name(c.old_symbol, c.new_symbol) + confidence_text(c)]
            + (if c.kind.description().len() > 0 { seq![indent(c.kind.description())] } else { Seq::empty() })
            + (if change_file_info(c.old_symbol, c.new_symbol).len() > 0 { seq![indent("@ "@ + change_file_info(c.old_symbol, c.new_symbol))] } else { Seq::empty() })));
    }
    match &change.body_diff {
        Some(diff) => {
            let plain = diff.to_plain_text();
            let pc = chars_of(plain.as_str());
            let ls = split_lines(&pc);
            let ghost lv = char_lines(ls@);
            let n: usize = if ls.len() <= 10 {
                ls.len()
            } else {
                10
            };
            let mut k: usize = 0;
            while k < n
                invariant
                    k <= n,
                    n <= ls@.len(),
                    n == (if ls@.len() <= 10 { ls@.len() } else { 10 }),
                    lv == char_lines(ls@),
                    strs_view(out@) == mid + lv.take(k as int).map_values(|l: Seq<char>| indent(l)),
                decreases n - k,
            {
                let t = string_from_chars(ls[k].as_slice());
                assert(lv[k as int] == ls@[k as int]@);
                push_line(out, indented(t.as_str()));
                proof {
                    assert(lv.take(k + 1).map_values(|l: Seq<char>| indent(l)) =~= lv.take(k as int).map_values(|l: Seq<char>| indent(l)).push(indent(lv[k as int])));
                }
                k = k + 1;
            }
            proof {
                if lv.len() <= 10 {
                    assert(lv.take(n as int) =~= lv);
                }
            }
            if ls.len() > 10 {
                let mut t = String::from_str("... (");
                let m = usize_to_string(ls.len() - 10);
                push_str(&mut t, m.as_str());
                push_str(&mut t, " more lines)");
                push_line(out, indented(t.as_str()));
            }
            proof {
                assert(strs_view(out@) =~= mid + body_lines(c));
            }
        },
        None => {
            proof {
                assert(strs_view(out@) =~= mid + body_lines(c));
            }
        },
    }
    push_line(out, String::new());
    proof {
        assert(strs_view(out@) =~= start + change_lines(c));
    }
}

/// All changes have usable confidences.
pub open spec fn confidences_wf(cs: Seq<ChangeView>) -> bool {
    forall|i: int| 0 <= i < cs.len() ==> (#[trigger] cs[i]).confidence.wf()
}

/// The report of a diff, line by line.
pub fn diff_report(result: &DiffResult) -> (r: Vec<String>)
    requires
        confidences_wf(crate::diff::changes_view(result.changes@)),
    ensures
        strs_view(r@) == diff_report_spec(*result),
{
    let ghost cv = crate::diff::changes_view(result.changes@);
    let mut out: Vec<String> = Vec::new();
    push_line(&mut out, String::from_str("=== Semantic Diff Summary ==="));
    push_line(&mut out, String::new());
    let s = &result.summary;
    let mut t = String::from_str("Total changes: ");
    push_str(&mut t, usize_to_string(s.total_changes).as_str());
    push_str(&mut t, "  (Added: ");
    push_str(&mut t, usize_to_string(s.added).as_str());
    push_str(&mut t, ", Deleted: ");
    push_str(&mut t, usize_to_string(s.deleted).as_str());
    push_str(&mut t, ", Renamed: ");
    push_str(&mut t, usize_to_string(s.renamed).as_str());
    push_str(&mut t, ", Moved: ");
    push_str(&mut t, usize_to_string(s.moved).as_str());
    push_str(&mut t, ", Extracted: ");
    push_str(&mut t, usize_to_string(s.extracted).as_str());
    push_str(&mut t, ", Modified: ");
    push_str(&mut t, usize_to_string(s.modified).as_str());
    push_str(&mut t, ")");
    push_line(&mut out, t);
    push_line(&mut out, String::new());
    let ghost head = strs_view(out@);
    if result.changes.len() == 0 {
        push_line(&mut out, String::from_str("No semantic changes detected."));
        return out;
    }
    let mut cat: usize = 0;
    while cat < 9
        invariant
            cat <= 9,
            cv == crate::diff::changes_view(result.changes@),
            confidences_wf(cv),
            cv.len() > 0,
            strs_view(out@) == head + categories_lines(cv, cat as int),
        decreases 9 - cat,
    {
        // the changes of this category, by index
        let mut items: Vec<usize> = Vec::new();
        let mut i: usize = 0;
        proof {
            assert(cv.take(0) =~= Seq::<ChangeView>::empty());
        }
        while i < result.changes.len()
            invariant
                i <= cv.len(),
                cv == crate::diff::changes_view(result.changes@),
                items@.len() == in_cat(cv.take(i as int), cat as int).len(),
                forall|k: int| 0 <= k < items@.len() ==> #[trigger] items@[k] < cv.len() && cv[items@[k] as int]
                    == in_cat(cv.take(i as int), cat as int)[k],
            decreases result.changes.len() - i,
        {
            proof {
                assert(cv.take(i + 1).drop_last() =~= cv.take(i as int));
                assert(cv.take(i + 1).last() == cv[i as int]);
            }
            assert(cv[i as int] == result.changes@[i as int]@);
            let ghost prev = in_cat(cv.take(i as int), cat as int);
            let ghost next = in_cat(cv.take(i + 1), cat as int);
            if kind_in_category(&result.changes[i].kind, cat) {
                items.push(i);
                assert(next == prev.push(cv[i as int]));
                assert(next[prev.len() as int] == cv[i as int]);
            } else {
                assert(next == prev);
            }
            i = i + 1;
        }
        proof {
            assert(cv.take(cv.len() as int) =~= cv);
        }
        let ghost iv = in_cat(cv, cat as int);
        let ghost before = strs_view(out@);
        if items.len() > 0 {
            let mut h = String::from_str("--- ");
            push_str(&mut h, category_name(cat));
            push_str(&mut h, " (");
            push_str(&mut h, usize_to_string(items.len()).as_str());
            push_str(&mut h, ") ---");
            push_line(&mut out, h);
            let ghost head2 = strs_view(out@);
            let mut k: usize = 0;
            proof {
                assert(iv.take(0) =~= Seq::<ChangeView>::empty());
                assert(head2 + changes_lines(iv.take(0)) =~= head2);
            }
            while k < items.len()
                invariant
                    k <= items@.len(),
                    items@.len() == iv.len(),
                    iv == in_cat(cv, cat as int),
                    cv == crate::diff::changes_view(result.changes@),
                    confidences_wf(cv),
                    forall|j: int| 0 <= j < items@.len() ==> #[trigger] items@[j] < cv.len() && cv[items@[j] as int] == iv[j],
                    strs_view(out@) == head2 + changes_lines(iv.take(k as int)),
                decreases items.len() - k,
            {
                let idx = items[k];
                assert(items@[k as int] < cv.len());
                let change = &result.changes[idx];
                assert(cv[idx as int] == change@);
                assert(change.confidence.wf());
                push_change_lines(&mut out, change);
                proof {
                    assert(iv.take(k + 1).drop_last() =~= iv.take(k as int));
                    assert(iv.take(k + 1).last() == change@);
                }
                k = k + 1;
            }
            proof {
                assert(iv.take(iv.len() as int) =~= iv);
            }
        }
        proof {
            assert(strs_view(out@) =~= before + category_lines(cv, cat as int));
        }
        cat = cat + 1;
    }
    out
}

// ------------------------------------------------------------ analysis report

pub open spec fn report_caller_lines(c: CallerView) -> Seq<Seq<char>> {
    seq![
        "  ["@ + risk_tag(c.risk) + "] "@ + c.caller_symbol + " @ "@ + c.caller_file + ":"@ + decimal(
            c.caller_line as nat,
        ) + depth_text(c.depth),
        "       calls '"@ + c.changed_callee + "' which was: "@ + c.change_description,
    ]
}

pub open spec fn report_similar_line(s: SimilarView) -> Seq<char> {
    "  ["@ + s.kind.label_text() + "] "@ + s.similar_symbol + " @ "@ + s.file_path + ":L"@ + decimal(
        s.line_range.0 as nat,
    ) + "-"@ + decimal(s.line_range.1 as nat) + "  ("@ + decimal(rounded_percent(s.similarity))
        + "% similar to "@ + s.changed_symbol + ")"@
}

pub open spec fn report_warning_lines(w: WarningView) -> Seq<Seq<char>> {
    seq![
        "  [WARN] "@ + w.message,
        "         @ "@ + w.file_path + ":L"@ + decimal(w.line_range.0 as nat) + "-"@ + decimal(
            w.line_range.1 as nat,
        ),
    ]
}

pub open spec fn flat_lines<A>(s: Seq<A>, f: spec_fn(A) -> Seq<Seq<char>>) -> Seq<Seq<char>>
    decreases s.len(),
{
    if s.len() == 0 {
        Seq::empty()
    } else {
        flat_lines(s.drop_last(), f) + f(s.last())
    }
}

/// The report of a repository analysis: what was scanned, the risk counts
/// when anything is affected or warned about, then the affected callers,
/// similar code and warnings, each under a heading when there are any.
pub open spec fn repo_report_spec(a: RepoAnalysis) -> Seq<Seq<char>> {
    let i = a.impact;
    let rs = i.risk_summary;
    let cv = callers_view(i.affected_callers@);
    let sv = findings_view(i.similar_code@);
    let wv = warnings_view(i.pattern_warnings@);
    seq![
        Seq::empty(),
        "=== Repo-Wide Impact Analysis ==="@,
        "Scanned: "@ + decimal(a.total_repo_symbols as nat) + " symbols, "@ + decimal(a.call_graph_edges as nat)
            + " call edges"@,
        Seq::empty(),
    ] + (if rs.total_affected_callers > 0 || rs.total_pattern_warnings > 0 {
        seq![
            "Risk: "@ + decimal(rs.high_risk_count as nat) + " high, "@ + decimal(rs.medium_risk_count as nat)
                + " medium, "@ + decimal(rs.low_risk_count as nat) + " low"@,
            Seq::empty(),
        ]
    } else {
        Seq::empty()
    }) + (if cv.len() > 0 {
        seq![heading("Affected Callers"@, cv.len())] + flat_lines(
            cv,
            |c: CallerView| report_caller_lines(c),
        ) + seq![Seq::empty()]
    } else {
        Seq::empty()
    }) + (if sv.len() > 0 {
        seq![heading("Similar Code"@, sv.len())] + sv.map_values(
            |s: SimilarView| report_similar_line(s),
        ) + seq![Seq::empty()]
    } else {
        Seq::empty()
    }) + (if wv.len() > 0 {
        seq![heading("Pattern Warnings"@, wv.len())] + flat_lines(
            wv,
            |w: WarningView| report_warning_lines(w),
        ) + seq![Seq::empty()]
    } else {
        Seq::empty()
    }) + (if cv.len() == 0 && sv.len() == 0 && wv.len() == 0 {
        seq!["No impact detected."@]
    } else {
        Seq::empty()
    })
}

pub open spec fn heading(title: Seq<char>, n: nat) -> Seq<char> {
    "--- "@ + title + " ("@ + decimal(n) + ") ---"@
}

fn counted_heading(title: &str, n: usize) -> (r: String)
    ensures
        r@ == heading(title@, n as nat),
{
    let mut h = String::from_str("--- ");
    push_str(&mut h, title);
    push_str(&mut h, " (");
    push_str(&mut h, usize_to_string(n).as_str());
    push_str(&mut h, ") ---");
    h
}

/// The report of a repository analysis, line by line.
#[verifier::rlimit(40)]
#[verifier::spinoff_prover]
pub fn repo_analysis_report(analysis: &RepoAnalysis) -> (r: Vec<String>)
    requires
        findings_wf(findings_view(analysis.impact.similar_code@)),
    ensures
        strs_view(r@) == repo_report_spec(*analysis),
{
    let impact = &analysis.impact;
    let ghost cv = callers_view(impact.affected_callers@);
    let ghost sv = findings_view(impact.similar_code@);
    let ghost wv = warnings_view(impact.pattern_warnings@);
    let mut out: Vec<String> = Vec::new();
    push_line(&mut out, String::new());
    push_line(&mut out, String::from_str("=== Repo-Wide Impact Analysis ==="));
    let mut t = String::from_str("Scanned: ");
    push_str(&mut t, usize_to_string(analysis.total_repo_symbols).as_str());
    push_str(&mut t, " symbols, ");
    push_str(&mut t, usize_to_string(analysis.call_graph_edges).as_str());
    push_str(&mut t, " call edges");
    push_line(&mut out, t);
    push_line(&mut out, String::new());
    let ghost s0 = strs_view(out@);
    let rs = &impact.risk_summary;
    if rs.total_affected_callers > 0 || rs.total_pattern_warnings > 0 {
        let mut t = String::from_str("Risk: ");
        push_str(&mut t, usize_to_string(rs.high_risk_count).as_str());
        push_str(&mut t, " high, ");
        push_str(&mut t, usize_to_string(rs.medium_risk_count).as_str());
        push_str(&mut t, " medium, ");
        push_str(&mut t, usize_to_string(rs.low_risk_count).as_str());
        push_str(&mut t, " low");
        push_line(&mut out, t);
        push_line(&mut out, String::new());
    }
    let ghost s1 = strs_view(out@);
    if impact.affected_callers.len() > 0 {
        push_line(&mut out, counted_heading("Affected Callers", impact.affected_callers.len()));
        let ghost h = strs_view(out@);
        let mut k: usize = 0;
        proof {
            assert(cv.take(0) =~= Seq::<CallerView>::empty());
            assert(h + flat_lines(cv.take(0), |c: CallerView| report_caller_lines(c)) =~= h);
        }
        while k < impact.affected_callers.len()
            invariant
                k <= cv.len(),
                cv == callers_view(impact.affected_callers@),
                strs_view(out@) == h + flat_lines(cv.take(k as int), |c: CallerView| report_caller_lines(c)),
            decreases impact.affected_callers.len() - k,
        {
            let c = &impact.affected_callers[k];
            assert(cv[k as int] == c@);
            let mut a = String::from_str("  [");
            let tag = match c.risk {
                RiskLevel::High => "HIGH",
                RiskLevel::Medium => "MED ",
                RiskLevel::Low => "LOW ",
            };
            push_str(&mut a, tag);
            push_str(&mut a, "] ");
            push_str(&mut a, c.caller_symbol.as_str());
            push_str(&mut a, " @ ");
            push_str(&mut a, c.caller_file.as_str());
            push_str(&mut a, ":");
            push_str(&mut a, usize_to_string(c.caller_line).as_str());
            if c.depth > 0 {
                push_str(&mut a, " (depth ");
                push_str(&mut a, usize_to_string(c.depth).as_str());
                push_str(&mut a, ")");
            }
            let mut b = String::from_str("       calls '");
            push_str(&mut b, c.changed_callee.as_str());
            push_str(&mut b, "' which was: ");
            push_str(&mut b, c.change_description.as_str());
            let ghost before = strs_view(out@);
            proof {
                assert(a@ =~= report_caller_lines(c@)[0]);
                assert(b@ =~= report_caller_lines(c@)[1]);
            }
            push_line(&mut out, a);
            push_line(&mut out, b);
            proof {
                assert(cv.take(k + 1).drop_last() =~= cv.take(k as int));
                assert(cv.take(k + 1).last() == c@);
                assert(strs_view(out@) =~= before + report_caller_lines(c@));
            }
            k = k + 1;
        }
        push_line(&mut out, String::new());
        proof {
            assert(cv.take(cv.len() as int) =~= cv);
        }
    }
    let ghost s2 = strs_view(out@);
    if impact.similar_code.len() > 0 {
        push_line(&mut out, counted_heading("Similar Code", impact.similar_code.len()));
        let ghost h = strs_view(out@);
        let mut k: usize = 0;
        while k < impact.similar_code.len()
            invariant
                k <= sv.len(),
                sv == findings_view(impact.similar_code@),
                findings_wf(sv),
                strs_view(out@) == h + sv.take(k as int).map_values(|s: SimilarView| report_similar_line(s)),
            decreases impact.similar_code.len() - k,
        {
            let s = &impact.similar_code[k];
            assert(sv[k as int] == s@);
            assert(s.similarity.wf());
            let mut a = String::from_str("  [");
            push_str(&mut a, s.kind.label());
            push_str(&mut a, "] ");
            push_str(&mut a, s.similar_symbol.as_str());
            push_str(&mut a, " @ ");
            push_str(&mut a, s.file_path.as_str());
            push_str(&mut a, ":L");
            push_str(&mut a, usize_to_string(s.line_range.0).as_str());
            push_str(&mut a, "-");
            push_str(&mut a, usize_to_string(s.line_range.1).as_str());
            push_str(&mut a, "  (");
            push_str(&mut a, u128_to_string(percent(&s.similarity)).as_str());
            push_str(&mut a, "% similar to ");
            push_str(&mut a, s.changed_symbol.as_str());
            push_str(&mut a, ")");
            proof {
                assert(a@ =~= report_similar_line(s@));
            }
            push_line(&mut out, a);
            proof {
                assert(sv.take(k + 1).map_values(|s: SimilarView| report_similar_line(s)) =~= sv.take(k as int).map_values(|s: SimilarView| report_similar_line(s)).push(report_similar_line(sv[k as int])));
            }
            k = k + 1;
        }
        push_line(&mut out, String::new());
        proof {
            assert(sv.take(sv.len() as int) =~= sv);
        }
    }
    let ghost s3 = strs_view(out@);
    if impact.pattern_warnings.len() > 0 {
        push_line(&mut out, counted_heading("Pattern Warnings", impact.pattern_warnings.len()));
        let ghost h = strs_view(out@);
        let mut k: usize = 0;
        proof {
            assert(wv.take(0) =~= Seq::<WarningView>::empty());
            assert(h + flat_lines(wv.take(0), |w: WarningView| report_warning_lines(w)) =~= h);
        }
        while k < impact.pattern_warnings.len()
            invariant
                k <= wv.len(),
                wv == warnings_view(impact.pattern_warnings@),
                strs_view(out@) == h + flat_lines(wv.take(k as int), |w: WarningView| report_warning_lines(w)),
            decreases impact.pattern_warnings.len() - k,
        {
            let w = &impact.pattern_warnings[k];
            assert(wv[k as int] == w@);
            let mut a = String::from_str("  [WARN] ");
            push_str(&mut a, w.message.as_str());
            let mut b = String::from_str("         @ ");
            push_str(&mut b, w.file_path.as_str());
            push_str(&mut b, ":L");
            push_str(&mut b, usize_to_string(w.line_range.0).as_str());
            push_str(&mut b, "-");
            push_str(&mut b, usize_to_string(w.line_range.1).as_str());
            let ghost before = strs_view(out@);
            proof {
                assert(a@ =~= report_warning_lines(w@)[0]);
                assert(b@ =~= report_warning_lines(w@)[1]);
            }
            push_line(&mut out, a);
            push_line(&mut out, b);
            proof {
                assert(wv.take(k + 1).drop_last() =~= wv.take(k as int));
                assert(wv.take(k + 1).last() == w@);
                assert(strs_view(out@) =~= before + report_warning_lines(w@));
            }
            k = k + 1;
        }
        push_line(&mut out, String::new());
        proof {
            assert(wv.take(wv.len() as int) =~= wv);
        }
    }
    let ghost s4 = strs_view(out@);
    if impact.affected_callers.len() == 0 && impact.similar_code.len() == 0 && impact.pattern_warnings.len() == 0 {
        push_line(&mut out, String::from_str("No impact detected."));
    }
    proof {
        let i = analysis.impact;
        let rs = i.risk_summary;
        assert(s0 =~= seq![
            Seq::empty(),
            "=== Repo-Wide Impact Analysis ==="@,
            "Scanned: "@ + decimal(analysis.total_repo_symbols as nat) + " symbols, "@ + decimal(analysis.call_graph_edges as nat)
                + " call edges"@,
            Seq::<char>::empty(),
        ]);
        let p1 = if rs.total_affected_callers > 0 || rs.total_pattern_warnings > 0 {
            seq![
                "Risk: "@ + decimal(rs.high_risk_count as nat) + " high, "@ + decimal(rs.medium_risk_count as nat)
                    + " medium, "@ + decimal(rs.low_risk_count as nat) + " low"@,
                Seq::<char>::empty(),
            ]
        } else {
            Seq::empty()
        };
        assert(s1 =~= s0 + p1);
        let p2 = if cv.len() > 0 {
            seq![heading("Affected Callers"@, cv.len())] + flat_lines(
                cv,
                |c: CallerView| report_caller_lines(c),
            ) + seq![Seq::<char>::empty()]
        } else {
            Seq::empty()
        };
        assert(s2 =~= s1 + p2);
        let p3 = if sv.len() > 0 {
            seq![heading("Similar Code"@, sv.len())] + sv.map_values(
                |s: SimilarView| report_similar_line(s),
            ) + seq![Seq::<char>::empty()]
        } else {
            Seq::empty()
        };
        assert(s3 =~= s2 + p3);
        let p4 = if wv.len() > 0 {
            seq![heading("Pattern Warnings"@, wv.len())] + flat_lines(
                wv,
                |w: WarningView| report_warning_lines(w),
            ) + seq![Seq::<char>::empty()]
        } else {
            Seq::empty()
        };
        assert(s4 =~= s3 + p4);
        assert(strs_view(out@) =~= repo_report_spec(*analysis));
    }
    out
}

} // verus!
