//! Impact of a set of changes: affected callers with their risk, similar
//! code, warnings, and a risk summary.
use vstd::prelude::*;

use crate::diff::change::{change_symbol_name, ChangeKind, ChangeKindView, ChangeView, SemanticChange};
use crate::diff::changes_view;
use crate::llm::review::RiskLevel;
use crate::ratio::{percent, rounded_percent, Ratio};
use crate::repo::call_graph::{transitive_spec, CallGraph, EdgeView, GraphView};
use crate::repo::similarity::{
    findings_view, findings_wf, lex_lt, SimilarCode, SimilarView, SimilarityKind,
};
use crate::text::{chars_of, decimal, push_str, u128_to_string};

verus! {

/// A caller affected by a change.
#[derive(Debug)]
pub struct AffectedCaller {
    pub caller_symbol: String,
    pub caller_file: String,
    pub caller_line: usize,
    pub changed_callee: String,
    pub change_description: String,
    pub risk: RiskLevel,
    pub depth: usize,
}

pub struct CallerView {
    pub caller_symbol: Seq<char>,
    pub caller_file: Seq<char>,
    pub caller_line: usize,
    pub changed_callee: Seq<char>,
    pub change_description: Seq<char>,
    pub risk: RiskLevel,
    pub depth: usize,
}

impl View for AffectedCaller {
    type V = CallerView;

    open spec fn view(&self) -> CallerView {
        CallerView {
            caller_symbol: self.caller_symbol@,
            caller_file: self.caller_file@,
            caller_line: self.caller_line,
            changed_callee: self.changed_callee@,
            change_description: self.change_description@,
            risk: self.risk,
            depth: self.depth,
        }
    }
}

impl AffectedCaller {
    pub fn duplicate(&self) -> (r: AffectedCaller)
        ensures
            r@ == self@,
    {
        AffectedCaller {
            caller_symbol: self.caller_symbol.clone(),
            caller_file: self.caller_file.clone(),
            caller_line: self.caller_line,
            changed_callee: self.changed_callee.clone(),
            change_description: self.change_description.clone(),
            risk: self.risk,
            depth: self.depth,
        }
    }
}

/// Code that may need the same update as a changed symbol.
#[derive(Debug)]
pub struct PatternWarning {
    pub message: String,
    pub changed_symbol: String,
    pub related_symbol: String,
    pub file_path: String,
    pub line_range: (usize, usize),
    pub similarity: Ratio,
}

pub struct WarningView {
    pub message: Seq<char>,
    pub changed_symbol: Seq<char>,
    pub related_symbol: Seq<char>,
    pub file_path: Seq<char>,
    pub line_range: (usize, usize),
    pub similarity: Ratio,
}

impl View for PatternWarning {
    type V = WarningView;

    open spec fn view(&self) -> WarningView {
        WarningView {
            message: self.message@,
            changed_symbol: self.changed_symbol@,
            related_symbol: self.related_symbol@,
            file_path: self.file_path@,
            line_range: self.line_range,
            similarity: self.similarity,
        }
    }
}

/// Counts of affected callers by risk, and totals.
#[derive(Debug)]
pub struct ImpactRiskSummary {
    pub high_risk_count: usize,
    pub medium_risk_count: usize,
    pub low_risk_count: usize,
    pub total_affected_callers: usize,
    pub total_similar_code: usize,
    pub total_pattern_warnings: usize,
}

/// The impact of a set of changes.
#[derive(Debug)]
pub struct ImpactAnalysis {
    pub affected_callers: Vec<AffectedCaller>,
    pub similar_code: Vec<SimilarCode>,
    pub pattern_warnings: Vec<PatternWarning>,
    pub risk_summary: ImpactRiskSummary,
}

// --------------------------------------------------------------- risk

/// What a change means for its callers, and how risky it is for them.
pub open spec fn change_risk_spec(k: ChangeKindView) -> (Seq<char>, RiskLevel) {
    match k {
        ChangeKindView::Deleted => ("symbol deleted"@, RiskLevel::High),
        ChangeKindView::SignatureChanged { .. } => ("signature changed"@, RiskLevel::High),
        ChangeKindView::Renamed { old_name, new_name } => (
            "renamed "@ + old_name + " -> "@ + new_name,
            RiskLevel::High,
        ),
        ChangeKindView::Moved { from_file, to_file } => (
            "moved "@ + from_file + " -> "@ + to_file,
            RiskLevel::Medium,
        ),
        ChangeKindView::MovedAndModified { from_file, to_file } => (
            "moved and modified "@ + from_file + " -> "@ + to_file,
            RiskLevel::High,
        ),
        ChangeKindView::BodyChanged => ("body modified"@, RiskLevel::Medium),
        ChangeKindView::VisibilityChanged { .. } => ("visibility changed"@, RiskLevel::Medium),
        ChangeKindView::Extracted { .. } => ("code extracted"@, RiskLevel::Medium),
        ChangeKindView::Inlined { .. } => ("code inlined"@, RiskLevel::Medium),
        ChangeKindView::Added => ("new symbol"@, RiskLevel::Low),
    }
}

/// Whether a change can break its callers: the symbol is gone, renamed,
/// given another signature, or moved to another file with a new body.
pub open spec fn breaking(k: ChangeKindView) -> bool {
    k is Deleted || k is Renamed || k is SignatureChanged || k is MovedAndModified
}

/// The risk a change carries for its callers: high exactly for breaking
/// changes, low exactly for additions, and medium for every other change
/// (a body, visibility or file change, an extraction or an inlining).
pub proof fn lemma_risk_by_kind(k: ChangeKindView)
    ensures
        change_risk_spec(k).1 == RiskLevel::High <==> breaking(k),
        change_risk_spec(k).1 == RiskLevel::Low <==> k is Added,
        change_risk_spec(k).1 == RiskLevel::Medium <==> !breaking(k) && !(k is Added),
{
}


/// The description of a change for its callers names what happened and,
/// for a rename or a move, the names or files on both sides.
pub proof fn lemma_risk_descriptions(k: ChangeKindView)
    ensures
        k is Deleted ==> change_risk_spec(k).0 == "symbol deleted"@,
        k is SignatureChanged ==> change_risk_spec(k).0 == "signature changed"@,
        k is BodyChanged ==> change_risk_spec(k).0 == "body modified"@,
        k is VisibilityChanged ==> change_risk_spec(k).0 == "visibility changed"@,
        k is Extracted ==> change_risk_spec(k).0 == "code extracted"@,
        k is Inlined ==> change_risk_spec(k).0 == "code inlined"@,
        k is Added ==> change_risk_spec(k).0 == "new symbol"@,
        k matches ChangeKindView::Renamed { old_name, new_name } ==> change_risk_spec(k).0 == "renamed "@
            + old_name + " -> "@ + new_name,
        k matches ChangeKindView::Moved { from_file, to_file } ==> change_risk_spec(k).0 == "moved "@
            + from_file + " -> "@ + to_file,
        k matches ChangeKindView::MovedAndModified { from_file, to_file } ==> change_risk_spec(k).0
            == "moved and modified "@ + from_file + " -> "@ + to_file,
{
}

/// The description and risk of a change for its callers.
pub fn assess_change_risk(kind: &ChangeKind) -> (r: (String, RiskLevel))
    ensures
        (r.0@, r.1) == change_risk_spec(kind@),
{
    match kind {
        ChangeKind::Deleted => (String::from_str("symbol deleted"), RiskLevel::High),
        ChangeKind::SignatureChanged { .. } => (String::from_str("signature changed"), RiskLevel::High),
        ChangeKind::Renamed { old_name, new_name } => {
            let mut s = String::from_str("renamed ");
            push_str(&mut s, old_name.as_str());
            push_str(&mut s, " -> ");
            push_str(&mut s, new_name.as_str());
            (s, RiskLevel::High)
        },
        ChangeKind::Moved { from_file, to_file } => {
            let mut s = String::from_str("moved ");
            push_str(&mut s, from_file.as_str());
            push_str(&mut s, " -> ");
            push_str(&mut s, to_file.as_str());
            (s, RiskLevel::Medium)
        },
        ChangeKind::MovedAndModified { from_file, to_file } => {
            let mut s = String::from_str("moved and modified ");
            push_str(&mut s, from_file.as_str());
            push_str(&mut s, " -> ");
            push_str(&mut s, to_file.as_str());
            (s, RiskLevel::High)
        },
        ChangeKind::BodyChanged => (String::from_str("body modified"), RiskLevel::Medium),
        ChangeKind::VisibilityChanged { .. } => (String::from_str("visibility changed"), RiskLevel::Medium),
        ChangeKind::Extracted { .. } => (String::from_str("code extracted"), RiskLevel::Medium),
        ChangeKind::Inlined { .. } => (String::from_str("code inlined"), RiskLevel::Medium),
        ChangeKind::Added => (String::from_str("new symbol"), RiskLevel::Low),
    }
}

/// Risk for a caller `depth` levels away: the change's own risk for direct
/// callers; for indirect ones, medium after a high-risk change, else low.
pub open spec fn caller_risk(base: RiskLevel, depth: usize) -> RiskLevel {
    if depth == 0 {
        base
    } else {
        match base {
            RiskLevel::High => RiskLevel::Medium,
            _ => RiskLevel::Low,
        }
    }
}

// --------------------------------------------------------------- summary

pub open spec fn count_risk(cs: Seq<CallerView>, level: RiskLevel) -> nat
    decreases cs.len(),
{
    if cs.len() == 0 {
        0
    } else {
        count_risk(cs.drop_last(), level) + if cs.last().risk == level {
            1nat
        } else {
            0nat
        }
    }
}

pub open spec fn callers_view(v: Seq<AffectedCaller>) -> Seq<CallerView> {
    v.map_values(|c: AffectedCaller| c@)
}

pub open spec fn warnings_view(v: Seq<PatternWarning>) -> Seq<WarningView> {
    v.map_values(|w: PatternWarning| w@)
}

/// Counts the affected callers by risk, with the totals of each list.
pub fn compute_risk_summary(analysis: &ImpactAnalysis) -> (r: ImpactRiskSummary)
    ensures
        r.total_affected_callers == analysis.affected_callers@.len(),
        r.total_similar_code == analysis.similar_code@.len(),
        r.total_pattern_warnings == analysis.pattern_warnings@.len(),
        r.high_risk_count == count_risk(callers_view(analysis.affected_callers@), RiskLevel::High),
        r.medium_risk_count == count_risk(callers_view(analysis.affected_callers@), RiskLevel::Medium),
        r.low_risk_count == count_risk(callers_view(analysis.affected_callers@), RiskLevel::Low),
{
    let ghost cv = callers_view(analysis.affected_callers@);
    let mut high: usize = 0;
    let mut medium: usize = 0;
    let mut low: usize = 0;
    let mut i: usize = 0;
    while i < analysis.affected_callers.len()
        invariant
            i <= analysis.affected_callers@.len(),
            cv == callers_view(analysis.affected_callers@),
            high == count_risk(cv.take(i as int), RiskLevel::High),
            medium == count_risk(cv.take(i as int), RiskLevel::Medium),
            low == count_risk(cv.take(i as int), RiskLevel::Low),
            high + medium + low == i,
        decreases analysis.affected_callers.len() - i,
    {
        proof {
            assert(cv.take(i + 1).drop_last() =~= cv.take(i as int));
        }
        match analysis.affected_callers[i].risk {
            RiskLevel::High => high = high + 1,
            RiskLevel::Medium => medium = medium + 1,
            RiskLevel::Low => low = low + 1,
        }
        i = i + 1;
    }
    proof {
        assert(cv.take(analysis.affected_callers@.len() as int) =~= cv);
    }
    ImpactRiskSummary {
        high_risk_count: high,
        medium_risk_count: medium,
        low_risk_count: low,
        total_affected_callers: analysis.affected_callers.len(),
        total_similar_code: analysis.similar_code.len(),
        total_pattern_warnings: analysis.pattern_warnings.len(),
    }
}

/// Every affected caller is counted under exactly one risk level.
pub proof fn lemma_risk_counts_partition(cs: Seq<CallerView>)
    ensures
        count_risk(cs, RiskLevel::High) + count_risk(cs, RiskLevel::Medium) + count_risk(
            cs,
            RiskLevel::Low,
        ) == cs.len(),
    decreases cs.len(),
{
    if cs.len() > 0 {
        lemma_risk_counts_partition(cs.drop_last());
    }
}

// ---------------------------------------------------------- path order

/// A path component as `Path::components` yields it, ranked in the order
/// of components: the root, `.` at the start, `..`, then names.
pub type PartView = (u8, Seq<char>);

/// The pieces of a path between slashes (empty pieces included).
pub open spec fn slash_pieces(s: Seq<char>, i: int, cur: Seq<char>, acc: Seq<Seq<char>>) -> Seq<Seq<char>>
    decreases s.len() - i,
{
    if i < 0 || i >= s.len() {
        acc.push(cur)
    } else if s[i] == '/' {
        slash_pieces(s, i + 1, Seq::empty(), acc.push(cur))
    } else {
        slash_pieces(s, i + 1, cur.push(s[i]), acc)
    }
}

/// Components of the first `k` pieces: empty pieces and `.` are dropped,
/// except `.` as the first piece of a relative path; `..` is a parent.
pub open spec fn parts_of(pieces: Seq<Seq<char>>, rooted: bool, k: int) -> Seq<PartView>
    decreases k,
{
    if k <= 0 {
        if rooted {
            seq![(0u8, Seq::empty())]
        } else {
            Seq::empty()
        }
    } else {
        let r = parts_of(pieces, rooted, k - 1);
        let p = pieces[k - 1];
        if p.len() == 0 {
            r
        } else if p == "."@ {
            if k - 1 == 0 && !rooted {
                r.push((1u8, Seq::empty()))
            } else {
                r
            }
        } else if p == ".."@ {
            r.push((2u8, Seq::empty()))
        } else {
            r.push((3u8, p))
        }
    }
}

pub open spec fn path_parts(p: Seq<char>) -> Seq<PartView> {
    let pieces = slash_pieces(p, 0, Seq::empty(), Seq::empty());
    parts_of(pieces, p.len() > 0 && p[0] == '/', pieces.len() as int)
}

pub open spec fn part_lt(a: PartView, b: PartView) -> bool {
    a.0 < b.0 || (a.0 == b.0 && lex_lt(a.1, b.1))
}

/// Lexicographic order of component lists (the order of `Path`).
pub open spec fn parts_lt(a: Seq<PartView>, b: Seq<PartView>) -> bool
    decreases a.len(),
{
    if a.len() == 0 {
        b.len() > 0
    } else if b.len() == 0 {
        false
    } else if a[0] != b[0] {
        part_lt(a[0], b[0])
    } else {
        parts_lt(a.drop_first(), b.drop_first())
    }
}

pub open spec fn parts_vec_view(v: Seq<(u8, Vec<char>)>) -> Seq<PartView> {
    v.map_values(|x: (u8, Vec<char>)| (x.0, x.1@))
}

pub(crate) fn path_parts_of(path: &String) -> (r: Vec<(u8, Vec<char>)>)
    ensures
        parts_vec_view(r@) == path_parts(path@),
{
    let c = chars_of(path.as_str());
    let mut pieces: Vec<Vec<char>> = Vec::new();
    let mut cur: Vec<char> = Vec::new();
    proof {
        assert(crate::git::char_lines(pieces@) =~= Seq::<Seq<char>>::empty());
        assert(cur@ =~= Seq::<char>::empty());
    }
    let mut i: usize = 0;
    while i < c.len()
        invariant
            i <= c@.len(),
            c@ == path@,
            slash_pieces(c@, i as int, cur@, crate::git::char_lines(pieces@)) == slash_pieces(
                c@,
                0,
                Seq::empty(),
                Seq::empty(),
            ),
        decreases c.len() - i,
    {
        if c[i] == '/' {
            let ghost before = crate::git::char_lines(pieces@);
            let ghost cv = cur@;
            pieces.push(cur);
            cur = Vec::new();
            proof {
                assert(crate::git::char_lines(pieces@) =~= before.push(cv));
                assert(cur@ =~= Seq::<char>::empty());
            }
        } else {
            cur.push(c[i]);
        }
        i = i + 1;
    }
    let ghost before = crate::git::char_lines(pieces@);
    let ghost cv = cur@;
    pieces.push(cur);
    proof {
        assert(crate::git::char_lines(pieces@) =~= before.push(cv));
    }
    let ghost pv = crate::git::char_lines(pieces@);
    let rooted = c.len() > 0 && c[0] == '/';
    let mut parts: Vec<(u8, Vec<char>)> = Vec::new();
    if rooted {
        parts.push((0u8, Vec::new()));
    }
    proof {
        assert(parts_vec_view(parts@) =~= parts_of(pv, rooted, 0));
    }
    let mut k: usize = 0;
    while k < pieces.len()
        invariant
            k <= pieces@.len(),
            pv == crate::git::char_lines(pieces@),
            parts_vec_view(parts@) == parts_of(pv, rooted, k as int),
        decreases pieces.len() - k,
    {
        let p = &pieces[k];
        assert(pv[k as int] == p@);
        let ghost before = parts_vec_view(parts@);
        if p.len() == 0 {
        } else if crate::text::chars_are(p.as_slice(), ".") {
            if k == 0 && !rooted {
                parts.push((1u8, Vec::new()));
                proof {
                    assert(parts_vec_view(parts@) =~= before.push((1u8, Seq::<char>::empty())));
                }
            }
        } else if crate::text::chars_are(p.as_slice(), "..") {
            parts.push((2u8, Vec::new()));
            proof {
                assert(parts_vec_view(parts@) =~= before.push((2u8, Seq::<char>::empty())));
            }
        } else {
            parts.push((3u8, p.clone()));
            proof {
                assert(parts_vec_view(parts@) =~= before.push((3u8, p@)));
            }
        }
        k = k + 1;
    }
    parts
}

fn parts_less(a: &Vec<(u8, Vec<char>)>, b: &Vec<(u8, Vec<char>)>) -> (r: bool)
    ensures
        r == parts_lt(parts_vec_view(a@), parts_vec_view(b@)),
{
    let ghost av = parts_vec_view(a@);
    let ghost bv = parts_vec_view(b@);
    proof {
        assert(av.skip(0) =~= av);
        assert(bv.skip(0) =~= bv);
    }
    let mut i: usize = 0;
    while i < a.len() && i < b.len()
        invariant
            i <= a@.len(),
            i <= b@.len(),
            av == parts_vec_view(a@),
            bv == parts_vec_view(b@),
            parts_lt(av, bv) == parts_lt(av.skip(i as int), bv.skip(i as int)),
        decreases a.len() - i,
    {
        let same = a[i].0 == b[i].0 && crate::text::chars_eq(a[i].1.as_slice(), b[i].1.as_slice());
        assert(av[i as int] == (a@[i as int].0, a@[i as int].1@));
        assert(bv[i as int] == (b@[i as int].0, b@[i as int].1@));
        if !same {
            let lt = a[i].0 < b[i].0 || (a[i].0 == b[i].0 && crate::repo::similarity::lex_less_vec(&a[i].1, &b[i].1));
            return lt;
        }
        proof {
            assert(av.skip(i as int).drop_first() =~= av.skip(i + 1));
            assert(bv.skip(i as int).drop_first() =~= bv.skip(i + 1));
        }
        i = i + 1;
    }
    i < b.len()
}

pub(crate) fn parts_equal(a: &Vec<(u8, Vec<char>)>, b: &Vec<(u8, Vec<char>)>) -> (r: bool)
    ensures
        r == (parts_vec_view(a@) == parts_vec_view(b@)),
{
    let ghost av = parts_vec_view(a@);
    let ghost bv = parts_vec_view(b@);
    if a.len() != b.len() {
        proof {
            assert(av.len() != bv.len());
        }
        return false;
    }
    let mut i: usize = 0;
    while i < a.len()
        invariant
            a@.len() == b@.len(),
            i <= a@.len(),
            av == parts_vec_view(a@),
            bv == parts_vec_view(b@),
            forall|k: int| 0 <= k < i ==> av[k] == bv[k],
        decreases a.len() - i,
    {
        assert(av[i as int] == (a@[i as int].0, a@[i as int].1@));
        assert(bv[i as int] == (b@[i as int].0, b@[i as int].1@));
        if a[i].0 != b[i].0 || !crate::text::chars_eq(a[i].1.as_slice(), b[i].1.as_slice()) {
            return false;
        }
        i = i + 1;
    }
    proof {
        assert(av =~= bv);
    }
    true
}

// ------------------------------------------------------------ analysis

/// The callers one change affects, in the order the search finds them.
pub open spec fn change_callers(c: ChangeView, g: GraphView, depth: usize) -> Seq<CallerView> {
    let name = change_symbol_name(c.old_symbol, c.new_symbol);
    let risk = change_risk_spec(c.kind);
    transitive_spec(g, name, depth).map_values(
        |p: (EdgeView, usize)|
            CallerView {
                caller_symbol: p.0.0,
                caller_file: p.0.2,
                caller_line: p.0.3,
                changed_callee: name,
                change_description: risk.0,
                risk: caller_risk(risk.1, p.1),
                depth: p.1,
            },
    )
}

/// A change's direct callers (depth zero) are at high risk exactly when the
/// change is breaking, and every caller names the changed symbol with the
/// change's description; callers further away are never at high risk.
pub proof fn lemma_change_callers_risk(c: ChangeView, g: GraphView, depth: usize)
    ensures
        forall|k: int|
            0 <= k < change_callers(c, g, depth).len() ==> {
                let e = #[trigger] change_callers(c, g, depth)[k];
                &&& e.changed_callee == change_symbol_name(c.old_symbol, c.new_symbol)
                &&& e.depth == 0 ==> (e.risk == RiskLevel::High <==> breaking(c.kind))
                &&& e.depth > 0 ==> e.risk != RiskLevel::High
            },
{
    lemma_risk_by_kind(c.kind);
}


/// The callers of all changes, change by change.
pub open spec fn raw_callers(cs: Seq<ChangeView>, g: GraphView, depth: usize) -> Seq<CallerView>
    decreases cs.len(),
{
    if cs.len() == 0 {
        Seq::empty()
    } else {
        raw_callers(cs.drop_last(), g, depth) + change_callers(cs.last(), g, depth)
    }
}

/// Callers are ordered by symbol name, then by file path.
pub open spec fn caller_before(a: CallerView, b: CallerView) -> bool {
    lex_lt(a.caller_symbol, b.caller_symbol) || (a.caller_symbol == b.caller_symbol && parts_lt(
        path_parts(a.caller_file),
        path_parts(b.caller_file),
    ))
}

/// `x` placed after every element of `s` that does not come after it.
pub open spec fn insert_caller(s: Seq<CallerView>, x: CallerView) -> Seq<CallerView>
    decreases s.len(),
{
    if s.len() == 0 {
        seq![x]
    } else if caller_before(x, s.last()) {
        insert_caller(s.drop_last(), x).push(s.last())
    } else {
        s.push(x)
    }
}

/// The stable sort of callers by `caller_before`: callers that compare
/// equal keep their order.
pub open spec fn sort_callers(s: Seq<CallerView>) -> Seq<CallerView>
    decreases s.len(),
{
    if s.len() == 0 {
        s
    } else {
        insert_caller(sort_callers(s.drop_last()), s.last())
    }
}

/// Two entries for the same caller, file and changed symbol.
pub open spec fn same_caller(a: CallerView, b: CallerView) -> bool {
    &&& a.caller_symbol == b.caller_symbol
    &&& path_parts(a.caller_file) == path_parts(b.caller_file)
    &&& a.changed_callee == b.changed_callee
}

/// Drops each entry that repeats the entry kept just before it.
pub open spec fn dedup_callers(s: Seq<CallerView>) -> Seq<CallerView>
    decreases s.len(),
{
    if s.len() == 0 {
        s
    } else {
        let r = dedup_callers(s.drop_last());
        if r.len() > 0 && same_caller(r.last(), s.last()) {
            r
        } else {
            r.push(s.last())
        }
    }
}

/// The affected callers of an analysis: all callers, sorted, with adjacent
/// repeats dropped.
pub open spec fn affected_spec(cs: Seq<ChangeView>, g: GraphView, depth: usize) -> Seq<CallerView> {
    dedup_callers(sort_callers(raw_callers(cs, g, depth)))
}

/// An affected caller comes from one of the changes: it names that
/// change's symbol, and its risk is high exactly when it is a direct caller
/// of a breaking change.
pub open spec fn caller_from(cs: Seq<ChangeView>, e: CallerView) -> bool {
    exists|k: int|
        0 <= k < cs.len() && e.changed_callee == change_symbol_name((#[trigger] cs[k]).old_symbol, cs[k].new_symbol)
            && (e.risk == RiskLevel::High <==> e.depth == 0 && breaking(cs[k].kind))
}

proof fn lemma_raw_callers_from(cs: Seq<ChangeView>, g: GraphView, depth: usize)
    ensures
        forall|i: int| 0 <= i < raw_callers(cs, g, depth).len() ==> caller_from(cs, #[trigger] raw_callers(cs, g, depth)[i]),
    decreases cs.len(),
{
    if cs.len() > 0 {
        let init = cs.drop_last();
        lemma_raw_callers_from(init, g, depth);
        let a = raw_callers(init, g, depth);
        let b = change_callers(cs.last(), g, depth);
        lemma_change_callers_risk(cs.last(), g, depth);
        let last = cs.len() - 1;
        assert(cs[last] == cs.last());
        assert forall|i: int| 0 <= i < (a + b).len() implies caller_from(cs, #[trigger] (a + b)[i]) by {
            if i < a.len() {
                assert((a + b)[i] == a[i]);
                assert(caller_from(init, a[i]));
                let k = choose|k: int|
                    0 <= k < init.len() && a[i].changed_callee == change_symbol_name((#[trigger] init[k]).old_symbol, init[k].new_symbol)
                        && (a[i].risk == RiskLevel::High <==> a[i].depth == 0 && breaking(init[k].kind));
                assert(cs[k] == init[k]);
            } else {
                assert((a + b)[i] == b[i - a.len()]);
                let e = b[i - a.len()];
                assert(e.changed_callee == change_symbol_name(cs[last].old_symbol, cs[last].new_symbol));
            }
        }
    }
}

proof fn lemma_insert_caller_all(s: Seq<CallerView>, x: CallerView, p: spec_fn(CallerView) -> bool)
    requires
        forall|i: int| 0 <= i < s.len() ==> p(#[trigger] s[i]),
        p(x),
    ensures
        forall|i: int| 0 <= i < insert_caller(s, x).len() ==> p(#[trigger] insert_caller(s, x)[i]),
    decreases s.len(),
{
    if s.len() > 0 && caller_before(x, s.last()) {
        let init = s.drop_last();
        assert forall|i: int| 0 <= i < init.len() implies p(#[trigger] init[i]) by {
            assert(init[i] == s[i]);
        }
        lemma_insert_caller_all(init, x, p);
        assert(p(s[s.len() - 1]));
        let q = insert_caller(init, x);
        let r = q.push(s.last());
        assert forall|i: int| 0 <= i < r.len() implies p(#[trigger] r[i]) by {
            if i < q.len() {
                assert(r[i] == q[i]);
            }
        }
    } else if s.len() > 0 {
        let r = s.push(x);
        assert forall|i: int| 0 <= i < r.len() implies p(#[trigger] r[i]) by {
            if i < s.len() {
                assert(r[i] == s[i]);
            }
        }
    } else {
        assert(seq![x][0] == x);
    }
}

proof fn lemma_sort_callers_all(s: Seq<CallerView>, p: spec_fn(CallerView) -> bool)
    requires
        forall|i: int| 0 <= i < s.len() ==> p(#[trigger] s[i]),
    ensures
        forall|i: int| 0 <= i < sort_callers(s).len() ==> p(#[trigger] sort_callers(s)[i]),
    decreases s.len(),
{
    if s.len() > 0 {
        let init = s.drop_last();
        assert forall|i: int| 0 <= i < init.len() implies p(#[trigger] init[i]) by {
            assert(init[i] == s[i]);
        }
        lemma_sort_callers_all(init, p);
        assert(p(s[s.len() - 1]));
        lemma_insert_caller_all(sort_callers(init), s.last(), p);
    }
}

proof fn lemma_dedup_callers_all(s: Seq<CallerView>, p: spec_fn(CallerView) -> bool)
    requires
        forall|i: int| 0 <= i < s.len() ==> p(#[trigger] s[i]),
    ensures
        forall|i: int| 0 <= i < dedup_callers(s).len() ==> p(#[trigger] dedup_callers(s)[i]),
    decreases s.len(),
{
    if s.len() > 0 {
        let init = s.drop_last();
        assert forall|i: int| 0 <= i < init.len() implies p(#[trigger] init[i]) by {
            assert(init[i] == s[i]);
        }
        lemma_dedup_callers_all(init, p);
        assert(p(s[s.len() - 1]));
        let q = dedup_callers(init);
        let r = q.push(s.last());
        assert forall|i: int| 0 <= i < r.len() implies p(#[trigger] r[i]) by {
            if i < q.len() {
                assert(r[i] == q[i]);
            }
        }
    }
}

/// Every affected caller that an analysis reports comes from one of the
/// changes: it names that change's symbol, and it is at high risk exactly
/// when it calls a breaking change (a deletion, rename, signature change or
/// move with modification) directly.
pub proof fn lemma_affected_callers_from_changes(cs: Seq<ChangeView>, g: GraphView, depth: usize)
    ensures
        forall|i: int|
            0 <= i < affected_spec(cs, g, depth).len() ==> caller_from(cs, #[trigger] affected_spec(cs, g, depth)[i]),
{
    let p = |e: CallerView| caller_from(cs, e);
    lemma_raw_callers_from(cs, g, depth);
    let raw = raw_callers(cs, g, depth);
    assert forall|i: int| 0 <= i < raw.len() implies p(#[trigger] raw[i]) by {}
    lemma_sort_callers_all(raw, p);
    let sorted = sort_callers(raw);
    lemma_dedup_callers_all(sorted, p);
    let d = dedup_callers(sorted);
    assert forall|i: int| 0 <= i < d.len() implies caller_from(cs, #[trigger] d[i]) by {
        assert(p(d[i]));
    }
}


/// The warning a finding raises, if any.
pub open spec fn warning_for(s: SimilarView) -> Option<WarningView> {
    let message = match s.kind {
        SimilarityKind::ExactDuplicate => "Exact duplicate of '"@ + s.changed_symbol
            + "' exists but was not changed"@,
        SimilarityKind::StructurallySimilar => "'"@ + s.similar_symbol + "' is "@ + decimal(
            rounded_percent(s.similarity),
        ) + "% similar to changed '"@ + s.changed_symbol + "' - may need the same update"@,
        SimilarityKind::NamePattern => "'"@ + s.similar_symbol
            + "' follows the same naming pattern as '"@ + s.changed_symbol
            + "' - verify consistency"@,
    };
    let raised = match s.kind {
        SimilarityKind::ExactDuplicate => true,
        SimilarityKind::StructurallySimilar => s.similarity.above(7, 10),
        SimilarityKind::NamePattern => s.similarity.above(1, 2),
    };
    if raised {
        Some(
            WarningView {
                message,
                changed_symbol: s.changed_symbol,
                related_symbol: s.similar_symbol,
                file_path: s.file_path,
                line_range: s.line_range,
                similarity: s.similarity,
            },
        )
    } else {
        None
    }
}

/// The warnings of a list of findings, in order.
pub open spec fn warnings_spec(s: Seq<SimilarView>) -> Seq<WarningView>
    decreases s.len(),
{
    if s.len() == 0 {
        Seq::empty()
    } else {
        let r = warnings_spec(s.drop_last());
        match warning_for(s.last()) {
            Some(w) => r.push(w),
            None => r,
        }
    }
}

proof fn lemma_insert_at(s: Seq<CallerView>, x: CallerView, j: int)
    requires
        0 <= j <= s.len(),
        forall|k: int| j <= k < s.len() ==> caller_before(x, #[trigger] s[k]),
        j > 0 ==> !caller_before(x, s[j - 1]),
    ensures
        insert_caller(s, x) == s.insert(j, x),
    decreases s.len(),
{
    if s.len() == j {
        if s.len() == 0 {
            assert(s.insert(j, x) =~= seq![x]);
        } else {
            assert(s.insert(j, x) =~= s.push(x));
        }
    } else {
        assert(caller_before(x, s[s.len() - 1]));
        lemma_insert_at(s.drop_last(), x, j);
        assert(s.drop_last().insert(j, x).push(s.last()) =~= s.insert(j, x));
    }
}

fn caller_risk_of(base: RiskLevel, depth: usize) -> (r: RiskLevel)
    ensures
        r == caller_risk(base, depth),
{
    if depth == 0 {
        base
    } else {
        match base {
            RiskLevel::High => RiskLevel::Medium,
            _ => RiskLevel::Low,
        }
    }
}

/// Sort key of a caller: its symbol's characters and its path's components.
pub type CallerKey = (Vec<char>, Vec<(u8, Vec<char>)>);

pub open spec fn key_of(k: CallerKey, c: CallerView) -> bool {
    k.0@ == c.caller_symbol && parts_vec_view(k.1@) == path_parts(c.caller_file)
}

fn key_before(a: &CallerKey, b: &CallerKey) -> (r: bool)
    ensures
        r == (lex_lt(a.0@, b.0@) || (a.0@ == b.0@ && parts_lt(
            parts_vec_view(a.1@),
            parts_vec_view(b.1@),
        ))),
{
    if crate::repo::similarity::lex_less_vec(&a.0, &b.0) {
        true
    } else if crate::text::chars_eq(a.0.as_slice(), b.0.as_slice()) {
        parts_less(&a.1, &b.1)
    } else {
        false
    }
}

fn callers_of_changes(changes: &[SemanticChange], call_graph: &CallGraph, depth: usize) -> (r: Vec<
    AffectedCaller,
>)
    ensures
        callers_view(r@) == raw_callers(changes_view(changes@), call_graph@, depth),
{
    let ghost cv = changes_view(changes@);
    let mut out: Vec<AffectedCaller> = Vec::new();
    let mut i: usize = 0;
    while i < changes.len()
        invariant
            i <= changes@.len(),
            cv == changes_view(changes@),
            callers_view(out@) == raw_callers(cv.take(i as int), call_graph@, depth),
        decreases changes.len() - i,
    {
        let change = &changes[i];
        let name = String::from_str(change.symbol_name());
        let found = call_graph.transitive_callers(&name, depth);
        let (desc, base) = assess_change_risk(&change.kind);
        let ghost before = callers_view(out@);
        let ghost fv = crate::repo::call_graph::found_view(found@);
        let ghost added = change_callers(cv[i as int], call_graph@, depth);
        assert(cv[i as int] == change@);
        assert(added.len() == fv.len());
        let mut k: usize = 0;
        while k < found.len()
            invariant
                k <= found@.len(),
                i < cv.len(),
                fv == crate::repo::call_graph::found_view(found@),
                added.len() == fv.len(),
                added == change_callers(cv[i as int], call_graph@, depth),
                cv[i as int] == change@,
                name@ == change_symbol_name(change@.old_symbol, change@.new_symbol),
                fv == transitive_spec(call_graph@, name@, depth),
                (desc@, base) == change_risk_spec(change@.kind),
                callers_view(out@) == before + added.take(k as int),
            decreases found.len() - k,
        {
            let (edge, d) = (&found[k].0, found[k].1);
            assert(fv[k as int] == (edge@, d));
            let c = AffectedCaller {
                caller_symbol: edge.caller.clone(),
                caller_file: edge.file_path.clone(),
                caller_line: edge.line,
                changed_callee: name.clone(),
                change_description: desc.clone(),
                risk: caller_risk_of(base, d),
                depth: d,
            };
            assert(c@ == added[k as int]);
            let ghost prev = callers_view(out@);
            out.push(c);
            proof {
                assert(callers_view(out@) =~= prev.push(added[k as int]));
                assert(added.take(k + 1) =~= added.take(k as int).push(added[k as int]));
                assert(callers_view(out@) =~= before + added.take(k + 1));
            }
            k = k + 1;
        }
        proof {
            assert(added.take(k as int) =~= added);
            assert(cv.take(i + 1).drop_last() =~= cv.take(i as int));
            assert(cv.take(i + 1).last() == cv[i as int]);
        }
        i = i + 1;
    }
    proof {
        assert(cv.take(changes@.len() as int) =~= cv);
    }
    out
}

fn sorted_callers(raw: &Vec<AffectedCaller>) -> (r: (Vec<AffectedCaller>, Vec<CallerKey>))
    ensures
        callers_view(r.0@) == sort_callers(callers_view(raw@)),
        r.1@.len() == r.0@.len(),
        forall|k: int| 0 <= k < r.1@.len() ==> key_of(#[trigger] r.1@[k], r.0@[k]@),
{
    let ghost rv = callers_view(raw@);
    let mut sorted: Vec<AffectedCaller> = Vec::new();
    let mut keys: Vec<CallerKey> = Vec::new();
    proof {
        assert(rv.take(0) =~= Seq::<CallerView>::empty());
        assert(callers_view(sorted@) =~= Seq::<CallerView>::empty());
    }
    let mut i: usize = 0;
    while i < raw.len()
        invariant
            i <= raw@.len(),
            rv == callers_view(raw@),
            callers_view(sorted@) == sort_callers(rv.take(i as int)),
            keys@.len() == sorted@.len(),
            forall|k: int| 0 <= k < keys@.len() ==> key_of(#[trigger] keys@[k], sorted@[k]@),
        decreases raw.len() - i,
    {
        let x = raw[i].duplicate();
        let key: CallerKey = (chars_of(x.caller_symbol.as_str()), path_parts_of(&x.caller_file));
        let ghost xv = x@;
        let ghost sv = callers_view(sorted@);
        assert(xv == rv[i as int]);
        let mut j: usize = sorted.len();
        loop
            invariant
                j <= sorted@.len(),
                sv == callers_view(sorted@),
                keys@.len() == sorted@.len(),
                forall|k: int| 0 <= k < keys@.len() ==> key_of(#[trigger] keys@[k], sorted@[k]@),
                key_of(key, xv),
                forall|k: int| j <= k < sv.len() ==> caller_before(xv, #[trigger] sv[k]),
            ensures
                j <= sv.len(),
                forall|k: int| j <= k < sv.len() ==> caller_before(xv, #[trigger] sv[k]),
                j > 0 ==> !caller_before(xv, sv[j - 1]),
            decreases j,
        {
            if j == 0 {
                break;
            }
            assert(key_of(keys@[j - 1], sorted@[j - 1]@));
            assert(sv[j - 1] == sorted@[j - 1]@);
            if !key_before(&key, &keys[j - 1]) {
                break;
            }
            j = j - 1;
        }
        proof {
            lemma_insert_at(sv, xv, j as int);
            assert(rv.take(i + 1).drop_last() =~= rv.take(i as int));
            assert(rv.take(i + 1).last() == xv);
        }
        let ghost old_sorted = sorted@;
        let ghost old_keys = keys@;
        sorted.insert(j, x);
        keys.insert(j, key);
        proof {
            assert(callers_view(sorted@) =~= sv.insert(j as int, xv));
            assert forall|k: int| 0 <= k < keys@.len() implies key_of(
                #[trigger] keys@[k],
                sorted@[k]@,
            ) by {
                if k < j {
                    assert(keys@[k] == old_keys[k]);
                    assert(sorted@[k] == old_sorted[k]);
                } else if k > j {
                    assert(keys@[k] == old_keys[k - 1]);
                    assert(sorted@[k] == old_sorted[k - 1]);
                }
            }
        }
        i = i + 1;
    }
    proof {
        assert(rv.take(raw@.len() as int) =~= rv);
    }
    (sorted, keys)
}

fn dedup_sorted(sorted: &Vec<AffectedCaller>, keys: &Vec<CallerKey>) -> (r: Vec<AffectedCaller>)
    requires
        keys@.len() == sorted@.len(),
        forall|k: int| 0 <= k < keys@.len() ==> key_of(#[trigger] keys@[k], sorted@[k]@),
    ensures
        callers_view(r@) == dedup_callers(callers_view(sorted@)),
{
    let ghost sv = callers_view(sorted@);
    let mut out: Vec<AffectedCaller> = Vec::new();
    let mut last: usize = 0;
    proof {
        assert(sv.take(0) =~= Seq::<CallerView>::empty());
        assert(callers_view(out@) =~= Seq::<CallerView>::empty());
    }
    let mut i: usize = 0;
    while i < sorted.len()
        invariant
            i <= sorted@.len(),
            sv == callers_view(sorted@),
            keys@.len() == sorted@.len(),
            forall|k: int| 0 <= k < keys@.len() ==> key_of(#[trigger] keys@[k], sorted@[k]@),
            callers_view(out@) == dedup_callers(sv.take(i as int)),
            out@.len() > 0 ==> last < i && callers_view(out@).last() == sv[last as int],
        decreases sorted.len() - i,
    {
        proof {
            assert(sv.take(i + 1).drop_last() =~= sv.take(i as int));
            assert(sv.take(i + 1).last() == sv[i as int]);
        }
        let repeat = if out.len() > 0 {
            assert(key_of(keys@[i as int], sorted@[i as int]@));
            assert(key_of(keys@[last as int], sorted@[last as int]@));
            crate::text::chars_eq(keys[i].0.as_slice(), keys[last].0.as_slice())
                && parts_equal(&keys[i].1, &keys[last].1)
                && crate::text::str_eq(
                sorted[i].changed_callee.as_str(),
                sorted[last].changed_callee.as_str(),
            )
        } else {
            false
        };
        if !repeat {
            let ghost before = callers_view(out@);
            out.push(sorted[i].duplicate());
            last = i;
            proof {
                assert(callers_view(out@) =~= before.push(sv[i as int]));
            }
        }
        i = i + 1;
    }
    proof {
        assert(sv.take(sorted@.len() as int) =~= sv);
    }
    out
}

fn pattern_warning(sim: &SimilarCode) -> (r: Option<PatternWarning>)
    requires
        sim.similarity.wf(),
    ensures
        match r {
            Some(w) => warning_for(sim@) == Some(w@),
            None => warning_for(sim@) is None,
        },
{
    let raised = match sim.kind {
        SimilarityKind::ExactDuplicate => true,
        SimilarityKind::StructurallySimilar => sim.similarity.exceeds(7, 10),
        SimilarityKind::NamePattern => sim.similarity.exceeds(1, 2),
    };
    if !raised {
        return None;
    }
    let mut message = String::new();
    match sim.kind {
        SimilarityKind::ExactDuplicate => {
            push_str(&mut message, "Exact duplicate of '");
            push_str(&mut message, sim.changed_symbol.as_str());
            push_str(&mut message, "' exists but was not changed");
        },
        SimilarityKind::StructurallySimilar => {
            let pct = u128_to_string(percent(&sim.similarity));
            push_str(&mut message, "'");
            push_str(&mut message, sim.similar_symbol.as_str());
            push_str(&mut message, "' is ");
            push_str(&mut message, pct.as_str());
            push_str(&mut message, "% similar to changed '");
            push_str(&mut message, sim.changed_symbol.as_str());
            push_str(&mut message, "' - may need the same update");
        },
        SimilarityKind::NamePattern => {
            push_str(&mut message, "'");
            push_str(&mut message, sim.similar_symbol.as_str());
            push_str(&mut message, "' follows the same naming pattern as '");
            push_str(&mut message, sim.changed_symbol.as_str());
            push_str(&mut message, "' - verify consistency");
        },
    }
    proof {
        assert(Seq::<char>::empty() + "Exact duplicate of '"@ =~= "Exact duplicate of '"@);
        assert(Seq::<char>::empty() + "'"@ =~= "'"@);
    }
    Some(
        PatternWarning {
            message,
            changed_symbol: sim.changed_symbol.clone(),
            related_symbol: sim.similar_symbol.clone(),
            file_path: sim.file_path.clone(),
            line_range: sim.line_range,
            similarity: sim.similarity,
        },
    )
}

/// What an impact analysis holds for changes `cs`, a call graph `g`, a
/// search depth and the similar code found.
pub open spec fn impact_spec(
    r: ImpactAnalysis,
    cs: Seq<ChangeView>,
    g: GraphView,
    depth: usize,
    similar: Seq<SimilarView>,
) -> bool {
    &&& callers_view(r.affected_callers@) == affected_spec(cs, g, depth)
    &&& findings_view(r.similar_code@) == similar
    &&& warnings_view(r.pattern_warnings@) == warnings_spec(similar)
    &&& r.risk_summary.total_affected_callers == r.affected_callers@.len()
    &&& r.risk_summary.total_similar_code == similar.len()
    &&& r.risk_summary.total_pattern_warnings == r.pattern_warnings@.len()
    &&& r.risk_summary.high_risk_count == count_risk(callers_view(r.affected_callers@), RiskLevel::High)
    &&& r.risk_summary.medium_risk_count == count_risk(callers_view(r.affected_callers@), RiskLevel::Medium)
    &&& r.risk_summary.low_risk_count == count_risk(callers_view(r.affected_callers@), RiskLevel::Low)
}

/// The impact of `changes`: every caller up to `impact_depth` levels away
/// from a changed symbol, with the risk the change carries for it, sorted
/// by caller name and file, with an entry dropped when it repeats the one
/// just before it (repeats apart from each other stay); the similar code found;
/// the warnings that similar code raises; and a summary of the risks.
pub fn analyze_impact(
    changes: &[SemanticChange],
    call_graph: &CallGraph,
    similar_code: &[SimilarCode],
    impact_depth: usize,
) -> (r: ImpactAnalysis)
    requires
        findings_wf(findings_view(similar_code@)),
    ensures
        impact_spec(r, changes_view(changes@), call_graph@, impact_depth, findings_view(similar_code@)),
{
    let raw = callers_of_changes(changes, call_graph, impact_depth);
    let (sorted, keys) = sorted_callers(&raw);
    let affected_callers = dedup_sorted(&sorted, &keys);
    let ghost fv = findings_view(similar_code@);
    let mut copies: Vec<SimilarCode> = Vec::new();
    let mut warnings: Vec<PatternWarning> = Vec::new();
    let mut i: usize = 0;
    proof {
        assert(fv.take(0) =~= Seq::<SimilarView>::empty());
        assert(findings_view(copies@) =~= Seq::<SimilarView>::empty());
        assert(warnings_view(warnings@) =~= Seq::<WarningView>::empty());
    }
    while i < similar_code.len()
        invariant
            i <= similar_code@.len(),
            fv == findings_view(similar_code@),
            findings_wf(fv),
            findings_view(copies@) == fv.take(i as int),
            warnings_view(warnings@) == warnings_spec(fv.take(i as int)),
        decreases similar_code.len() - i,
    {
        let sim = &similar_code[i];
        assert(fv[i as int] == sim@);
        assert(sim.similarity.wf());
        proof {
            assert(fv.take(i + 1).drop_last() =~= fv.take(i as int));
            assert(fv.take(i + 1).last() == sim@);
        }
        let ghost before_c = findings_view(copies@);
        let ghost before_w = warnings_view(warnings@);
        copies.push(sim.duplicate());
        proof {
            assert(findings_view(copies@) =~= before_c.push(sim@));
            assert(fv.take(i + 1) =~= fv.take(i as int).push(sim@));
        }
        match pattern_warning(sim) {
            Some(w) => {
                warnings.push(w);
                proof {
                    assert(warnings_view(warnings@) =~= before_w.push(w@));
                }
            },
            None => {},
        }
        i = i + 1;
    }
    proof {
        assert(fv.take(similar_code@.len() as int) =~= fv);
    }
    let mut analysis = ImpactAnalysis {
        affected_callers,
        similar_code: copies,
        pattern_warnings: warnings,
        risk_summary: ImpactRiskSummary {
            high_risk_count: 0,
            medium_risk_count: 0,
            low_risk_count: 0,
            total_affected_callers: 0,
            total_similar_code: 0,
            total_pattern_warnings: 0,
        },
    };
    let summary = compute_risk_summary(&analysis);
    analysis.risk_summary = summary;
    analysis
}

} // verus!
