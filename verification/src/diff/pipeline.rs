//! The diff pipeline shared by directory and git modes: within-file
//! matching, cross-file detection of what is left, additions and deletions,
//! links between extractions and their sources, and intents.
use vstd::prelude::*;

use crate::ast::symbol::{Symbol, SymbolView, hash_eq};
use crate::diff::body_diff::{body_diff, body_diff_spec, LineView};
use crate::diff::change::{
    kinds_of, ChangeKind, ChangeKindView, ChangeView, DiffResult, DiffSummary, SemanticChange,
};
use crate::diff::classifier::{classify, classify_spec};
use crate::diff::cross_file::{cross_spec, detect_cross_file_moves, found_in_range, CrossFileMatch, CrossMatchType};
use crate::diff::intent::{classify_intent, classify_intent_spec};
use crate::diff::matcher::{all_comparable, lemma_match_partition, lemma_match_self, match_spec, match_symbols, syms_view, MatchResult};
use crate::diff::{
    changes_view, extraction_sources, ids_are_positions, lemma_link_all_len, lemma_links_mutual, link_all, link_related_changes,
    link_spec, links_mutual,
};
use crate::ratio::Ratio;

verus! {

/// The symbols of one file, keyed by its path.
pub type FileSymbols = (String, Vec<Symbol>);

pub type FileView = (Seq<char>, Seq<SymbolView>);

pub open spec fn files_view(f: Seq<FileSymbols>) -> Seq<FileView> {
    f.map_values(|e: FileSymbols| (e.0@, syms_view(e.1@)))
}

/// Every symbol of every file can take part in a matching.
pub open spec fn files_comparable(f: Seq<FileSymbols>) -> bool {
    forall|i: int| 0 <= i < f.len() ==> all_comparable((#[trigger] f[i]).1@)
}

/// Index of the file with path `p`, or the number of files.
pub open spec fn path_index(f: Seq<FileView>, p: Seq<char>, k: int) -> int
    decreases f.len() - k,
{
    if k < 0 || k >= f.len() {
        f.len() as int
    } else if f[k].0 == p {
        k
    } else {
        path_index(f, p, k + 1)
    }
}

/// A change before it is numbered: id zero, no related changes, no intent.
pub open spec fn draft(
    kind: ChangeKindView,
    old: Option<SymbolView>,
    new: Option<SymbolView>,
    confidence: Ratio,
    body: Option<Seq<LineView>>,
) -> ChangeView {
    ChangeView {
        id: 0,
        kind,
        old_symbol: old,
        new_symbol: new,
        confidence,
        body_diff: body,
        related_changes: Seq::empty(),
        intent: None,
    }
}

/// The body diff of two symbols whose bodies differ.
pub open spec fn body_if_differs(o: SymbolView, n: SymbolView) -> Option<Seq<LineView>> {
    if o.body_hash != n.body_hash {
        Some(body_diff_spec(o.body_text, n.body_text))
    } else {
        None
    }
}

/// A matched pair that nothing visible distinguishes.
pub open spec fn unchanged(o: SymbolView, n: SymbolView) -> bool {
    o.body_hash == n.body_hash && o.name == n.name && o.visibility == n.visibility
}

/// Changes of the matched pairs of one file, skipping unchanged pairs.
pub open spec fn pair_drafts(o: Seq<SymbolView>, n: Seq<SymbolView>, pairs: Seq<(usize, usize, Ratio)>) -> Seq<ChangeView>
    decreases pairs.len(),
{
    if pairs.len() == 0 {
        Seq::empty()
    } else {
        let r = pair_drafts(o, n, pairs.drop_last());
        let p = pairs.last();
        let os = o[p.0 as int];
        let ns = n[p.1 as int];
        if unchanged(os, ns) {
            r
        } else {
            r.push(draft(classify_spec(os, ns), Some(os), Some(ns), p.2, body_if_differs(os, ns)))
        }
    }
}

pub open spec fn pick(s: Seq<SymbolView>, idx: Seq<usize>) -> Seq<SymbolView> {
    idx.map_values(|i: usize| s[i as int])
}

/// Changes within the files of the first `i` old entries that the new
/// version also has.
pub open spec fn within_upto(old: Seq<FileView>, new: Seq<FileView>, i: int) -> Seq<ChangeView>
    decreases i,
{
    if i <= 0 {
        Seq::empty()
    } else {
        let j = path_index(new, old[i - 1].0, 0);
        within_upto(old, new, i - 1) + if j < new.len() {
            pair_drafts(old[i - 1].1, new[j].1, match_spec(old[i - 1].1, new[j].1).matched)
        } else {
            Seq::empty()
        }
    }
}

/// Old symbols left unmatched within the common files among the first `i`
/// old entries, then the symbols of the old-only files among them.
pub open spec fn left_old_common(old: Seq<FileView>, new: Seq<FileView>, i: int) -> Seq<SymbolView>
    decreases i,
{
    if i <= 0 {
        Seq::empty()
    } else {
        let j = path_index(new, old[i - 1].0, 0);
        left_old_common(old, new, i - 1) + if j < new.len() {
            pick(old[i - 1].1, match_spec(old[i - 1].1, new[j].1).unmatched_old)
        } else {
            Seq::empty()
        }
    }
}

pub open spec fn left_new_common(old: Seq<FileView>, new: Seq<FileView>, i: int) -> Seq<SymbolView>
    decreases i,
{
    if i <= 0 {
        Seq::empty()
    } else {
        let j = path_index(new, old[i - 1].0, 0);
        left_new_common(old, new, i - 1) + if j < new.len() {
            pick(new[j].1, match_spec(old[i - 1].1, new[j].1).unmatched_new)
        } else {
            Seq::empty()
        }
    }
}

/// Symbols of the first `i` files of `a` whose path `b` lacks.
pub open spec fn only_in(a: Seq<FileView>, b: Seq<FileView>, i: int) -> Seq<SymbolView>
    decreases i,
{
    if i <= 0 {
        Seq::empty()
    } else {
        only_in(a, b, i - 1) + if path_index(b, a[i - 1].0, 0) == b.len() {
            a[i - 1].1
        } else {
            Seq::empty()
        }
    }
}

/// All old symbols without a partner in their own file.
pub open spec fn left_old(old: Seq<FileView>, new: Seq<FileView>) -> Seq<SymbolView> {
    left_old_common(old, new, old.len() as int) + only_in(old, new, old.len() as int)
}

/// All new symbols without a partner in their own file.
pub open spec fn left_new(old: Seq<FileView>, new: Seq<FileView>) -> Seq<SymbolView> {
    left_new_common(old, new, old.len() as int) + only_in(new, old, new.len() as int)
}

/// The kind of change a cross-file match stands for.
pub open spec fn cross_kind(t: CrossMatchType, o: SymbolView, n: SymbolView) -> ChangeKindView {
    match t {
        CrossMatchType::ExactBody => ChangeKindView::Moved { from_file: o.file_path, to_file: n.file_path },
        CrossMatchType::NameAndBody => ChangeKindView::MovedAndModified {
            from_file: o.file_path,
            to_file: n.file_path,
        },
        CrossMatchType::SimilarBody => ChangeKindView::MovedAndModified {
            from_file: o.file_path,
            to_file: n.file_path,
        },
        CrossMatchType::Extracted => ChangeKindView::Extracted {
            from_symbol: o.name,
            new_symbol: n.name,
            source_file: o.file_path,
        },
        CrossMatchType::Inlined => ChangeKindView::Inlined { from_symbol: o.name, into_symbol: n.name },
    }
}

pub open spec fn cross_draft(uo: Seq<SymbolView>, un: Seq<SymbolView>, m: CrossFileMatch) -> ChangeView {
    let o = uo[m.old_idx as int];
    let n = un[m.new_idx as int];
    draft(cross_kind(m.match_type, o, n), Some(o), Some(n), m.confidence, body_if_differs(o, n))
}

pub open spec fn cross_drafts(uo: Seq<SymbolView>, un: Seq<SymbolView>, cm: Seq<CrossFileMatch>) -> Seq<ChangeView> {
    cm.map_values(|m: CrossFileMatch| cross_draft(uo, un, m))
}

pub open spec fn claimed_old(cm: Seq<CrossFileMatch>, k: int) -> bool {
    exists|t: int| 0 <= t < cm.len() && (#[trigger] cm[t]).old_idx == k
}

pub open spec fn claimed_new(cm: Seq<CrossFileMatch>, k: int) -> bool {
    exists|t: int| 0 <= t < cm.len() && (#[trigger] cm[t]).new_idx == k
}

/// Deletions: the first `k` left-over old symbols that no cross-file match claims.
pub open spec fn deleted_drafts(uo: Seq<SymbolView>, cm: Seq<CrossFileMatch>, k: int) -> Seq<ChangeView>
    decreases k,
{
    if k <= 0 {
        Seq::empty()
    } else {
        let r = deleted_drafts(uo, cm, k - 1);
        if claimed_old(cm, k - 1) {
            r
        } else {
            r.push(draft(ChangeKindView::Deleted, Some(uo[k - 1]), None, Ratio { num: 1, den: 1 }, None))
        }
    }
}

/// Additions: the first `k` left-over new symbols that no cross-file match claims.
pub open spec fn added_drafts(un: Seq<SymbolView>, cm: Seq<CrossFileMatch>, k: int) -> Seq<ChangeView>
    decreases k,
{
    if k <= 0 {
        Seq::empty()
    } else {
        let r = added_drafts(un, cm, k - 1);
        if claimed_new(cm, k - 1) {
            r
        } else {
            r.push(draft(ChangeKindView::Added, None, Some(un[k - 1]), Ratio { num: 1, den: 1 }, None))
        }
    }
}

pub open spec fn with_id(c: ChangeView, id: usize) -> ChangeView {
    ChangeView {
        id,
        kind: c.kind,
        old_symbol: c.old_symbol,
        new_symbol: c.new_symbol,
        confidence: c.confidence,
        body_diff: c.body_diff,
        related_changes: c.related_changes,
        intent: c.intent,
    }
}

/// The changes numbered from zero in order.
pub open spec fn numbered(ds: Seq<ChangeView>) -> Seq<ChangeView> {
    Seq::new(ds.len(), |k: int| with_id(ds[k], k as usize))
}

/// All changes, numbered, in order: within files, across files, deleted, added.
pub open spec fn pipeline_drafts(old: Seq<FileView>, new: Seq<FileView>) -> Seq<ChangeView> {
    let uo = left_old(old, new);
    let un = left_new(old, new);
    let cm = cross_spec(uo, un);
    within_upto(old, new, old.len() as int) + cross_drafts(uo, un, cm) + deleted_drafts(
        uo,
        cm,
        uo.len() as int,
    ) + added_drafts(un, cm, un.len() as int)
}

pub open spec fn with_intent(c: ChangeView) -> ChangeView {
    ChangeView {
        id: c.id,
        kind: c.kind,
        old_symbol: c.old_symbol,
        new_symbol: c.new_symbol,
        confidence: c.confidence,
        body_diff: c.body_diff,
        related_changes: c.related_changes,
        intent: Some(classify_intent_spec(c)),
    }
}

/// The changes the pipeline reports.
pub open spec fn pipeline_changes(old: Seq<FileView>, new: Seq<FileView>) -> Seq<ChangeView> {
    link_spec(numbered(pipeline_drafts(old, new))).map_values(|c: ChangeView| with_intent(c))
}

// ------------------------------------------------ comparing with itself

/// No two files share a path.
pub open spec fn distinct_paths(f: Seq<FileView>) -> bool {
    forall|a: int, b: int| 0 <= a < b < f.len() ==> (#[trigger] f[a]).0 != (#[trigger] f[b]).0
}

proof fn lemma_path_index_self(f: Seq<FileView>, i: int, k: int)
    requires
        distinct_paths(f),
        0 <= k <= i < f.len(),
    ensures
        path_index(f, f[i].0, k) == i,
    decreases i - k,
{
    if k < i {
        assert(f[k].0 != f[i].0);
        lemma_path_index_self(f, i, k + 1);
    }
}

proof fn lemma_pair_drafts_unchanged(o: Seq<SymbolView>, n: Seq<SymbolView>, pairs: Seq<(usize, usize, Ratio)>)
    requires
        forall|k: int| 0 <= k < pairs.len() ==> #[trigger] unchanged(o[pairs[k].0 as int], n[pairs[k].1 as int]),
    ensures
        pair_drafts(o, n, pairs).len() == 0,
    decreases pairs.len(),
{
    if pairs.len() > 0 {
        let init = pairs.drop_last();
        assert forall|k: int| 0 <= k < init.len() implies #[trigger] unchanged(o[init[k].0 as int], n[init[k].1 as int]) by {
            assert(init[k] == pairs[k]);
        }
        lemma_pair_drafts_unchanged(o, n, init);
        assert(unchanged(o[pairs[pairs.len() - 1].0 as int], n[pairs[pairs.len() - 1].1 as int]));
    }
}

proof fn lemma_self_upto(f: Seq<FileView>, i: int)
    requires
        distinct_paths(f),
        0 <= i <= f.len(),
        forall|k: int| 0 <= k < f.len() ==> (#[trigger] f[k]).1.len() <= usize::MAX,
    ensures
        within_upto(f, f, i).len() == 0,
        left_old_common(f, f, i).len() == 0,
        left_new_common(f, f, i).len() == 0,
        only_in(f, f, i).len() == 0,
    decreases i,
{
    if i > 0 {
        lemma_self_upto(f, i - 1);
        lemma_path_index_self(f, i - 1, 0);
        let s = f[i - 1].1;
        lemma_match_self(s);
        let m = match_spec(s, s);
        assert forall|k: int| 0 <= k < m.matched.len() implies #[trigger] unchanged(
            s[m.matched[k].0 as int],
            s[m.matched[k].1 as int],
        ) by {
            assert(m.matched[k].0 == m.matched[k].1);
        }
        lemma_pair_drafts_unchanged(s, s, m.matched);
    }
}

proof fn lemma_link_empty(es: Seq<(usize, Seq<char>)>)
    ensures
        link_all(Seq::empty(), es).len() == 0,
    decreases es.len(),
{
    if es.len() > 0 {
        lemma_link_empty(es.drop_last());
    }
}

/// Comparing a set of files with itself reports no change: each file is
/// paired with itself, each symbol is matched with itself and is unchanged,
/// and no symbol is left over to be moved, deleted or added.
pub proof fn lemma_identical_inputs_no_changes(files: Seq<FileView>)
    requires
        distinct_paths(files),
        forall|k: int| 0 <= k < files.len() ==> (#[trigger] files[k]).1.len() <= usize::MAX,
    ensures
        pipeline_changes(files, files).len() == 0,
{
    let n = files.len() as int;
    lemma_self_upto(files, n);
    let uo = left_old(files, files);
    let un = left_new(files, files);
    assert(uo.len() == 0);
    assert(un.len() == 0);
    let cm = cross_spec(uo, un);
    assert(cm.len() == 0) by {
        assert(uo =~= Seq::<SymbolView>::empty());
        assert(un =~= Seq::<SymbolView>::empty());
    }
    let ds = pipeline_drafts(files, files);
    assert(ds.len() == 0);
    let nd = numbered(ds);
    assert(nd =~= Seq::<ChangeView>::empty());
    lemma_link_empty(extraction_sources(nd));
}

// ------------------------------------------------------- related links

/// No change lists a related change yet.
pub open spec fn unlinked(ds: Seq<ChangeView>) -> bool {
    forall|k: int| 0 <= k < ds.len() ==> (#[trigger] ds[k]).related_changes.len() == 0
}

proof fn lemma_unlinked_add(a: Seq<ChangeView>, b: Seq<ChangeView>)
    requires
        unlinked(a),
        unlinked(b),
    ensures
        unlinked(a + b),
{
    assert forall|k: int| 0 <= k < (a + b).len() implies (#[trigger] (a + b)[k]).related_changes.len() == 0 by {
        if k < a.len() {
            assert((a + b)[k] == a[k]);
        } else {
            assert((a + b)[k] == b[k - a.len()]);
        }
    }
}

proof fn lemma_pair_drafts_unlinked(o: Seq<SymbolView>, n: Seq<SymbolView>, pairs: Seq<(usize, usize, Ratio)>)
    ensures
        unlinked(pair_drafts(o, n, pairs)),
    decreases pairs.len(),
{
    if pairs.len() > 0 {
        lemma_pair_drafts_unlinked(o, n, pairs.drop_last());
    }
}

proof fn lemma_within_unlinked(old: Seq<FileView>, new: Seq<FileView>, i: int)
    ensures
        unlinked(within_upto(old, new, i)),
    decreases i,
{
    if i > 0 {
        lemma_within_unlinked(old, new, i - 1);
        let j = path_index(new, old[i - 1].0, 0);
        if j < new.len() {
            lemma_pair_drafts_unlinked(old[i - 1].1, new[j].1, match_spec(old[i - 1].1, new[j].1).matched);
            lemma_unlinked_add(
                within_upto(old, new, i - 1),
                pair_drafts(old[i - 1].1, new[j].1, match_spec(old[i - 1].1, new[j].1).matched),
            );
        } else {
            lemma_unlinked_add(within_upto(old, new, i - 1), Seq::empty());
        }
    }
}

proof fn lemma_leftovers_unlinked(uo: Seq<SymbolView>, un: Seq<SymbolView>, cm: Seq<CrossFileMatch>, k: int)
    ensures
        unlinked(deleted_drafts(uo, cm, k)),
        unlinked(added_drafts(un, cm, k)),
    decreases k,
{
    if k > 0 {
        lemma_leftovers_unlinked(uo, un, cm, k - 1);
    }
}

/// The reported changes are numbered by position, and their links go both
/// ways: when one change lists another as related, the other lists it
/// back (an extraction and the change of the symbol it came from).
pub proof fn lemma_pipeline_links(old: Seq<FileView>, new: Seq<FileView>)
    requires
        pipeline_changes(old, new).len() <= usize::MAX,
    ensures
        ids_are_positions(pipeline_changes(old, new)),
        links_mutual(pipeline_changes(old, new)),
{
    let uo = left_old(old, new);
    let un = left_new(old, new);
    let cm = cross_spec(uo, un);
    let ds = pipeline_drafts(old, new);
    lemma_within_unlinked(old, new, old.len() as int);
    lemma_leftovers_unlinked(uo, un, cm, uo.len() as int);
    lemma_leftovers_unlinked(uo, un, cm, un.len() as int);
    let xs = cross_drafts(uo, un, cm);
    assert(unlinked(xs));
    lemma_unlinked_add(within_upto(old, new, old.len() as int), xs);
    lemma_unlinked_add(within_upto(old, new, old.len() as int) + xs, deleted_drafts(uo, cm, uo.len() as int));
    lemma_unlinked_add(
        within_upto(old, new, old.len() as int) + xs + deleted_drafts(uo, cm, uo.len() as int),
        added_drafts(un, cm, un.len() as int),
    );
    let nd = numbered(ds);
    lemma_link_all_len(nd, extraction_sources(nd));
    assert(ids_are_positions(nd));
    assert(links_mutual(nd));
    lemma_links_mutual(nd);
    let l = link_spec(nd);
    let r = pipeline_changes(old, new);
    assert forall|k: int| 0 <= k < r.len() implies #[trigger] r[k].related_changes == l[k].related_changes
        && r[k].id == l[k].id by {}
}

// ---------------------------------------------------------------- exec

/// The changes with their ids set to zero.
pub open spec fn unnumbered(cs: Seq<ChangeView>) -> Seq<ChangeView> {
    cs.map_values(|c: ChangeView| with_id(c, 0))
}

/// Each change's id is its position.
pub open spec fn ids_in_order(cs: Seq<SemanticChange>) -> bool {
    forall|k: int| 0 <= k < cs.len() ==> (#[trigger] cs[k]).id == k
}

proof fn lemma_numbered(cs: Seq<SemanticChange>, ds: Seq<ChangeView>)
    requires
        ids_in_order(cs),
        unnumbered(changes_view(cs)) == ds,
    ensures
        changes_view(cs) == numbered(ds),
{
    assert forall|k: int| 0 <= k < cs.len() implies changes_view(cs)[k] == numbered(ds)[k] by {
        assert(unnumbered(changes_view(cs))[k] == ds[k]);
        assert(cs[k].id == k);
    }
    assert(changes_view(cs) =~= numbered(ds));
}

fn find_path(files: &Vec<FileSymbols>, p: &String) -> (r: usize)
    ensures
        r as int == path_index(files_view(files@), p@, 0),
{
    let ghost fv = files_view(files@);
    let mut k: usize = 0;
    while k < files.len()
        invariant
            k <= files.len(),
            fv == files_view(files@),
            path_index(fv, p@, 0) == path_index(fv, p@, k as int),
        decreases files.len() - k,
    {
        if files[k].0 == *p {
            return k;
        }
        k = k + 1;
    }
    k
}

fn new_change(
    id: usize,
    kind: ChangeKind,
    old_symbol: Option<Symbol>,
    new_symbol: Option<Symbol>,
    confidence: Ratio,
    body_diff: Option<crate::diff::body_diff::BodyDiff>,
) -> (r: SemanticChange)
    ensures
        r.id == id,
        with_id(r@, 0) == draft(
            kind@,
            crate::diff::change::opt_sym_view(old_symbol),
            crate::diff::change::opt_sym_view(new_symbol),
            confidence,
            crate::diff::change::opt_body_view(body_diff),
        ),
{
    SemanticChange {
        id,
        kind,
        old_symbol,
        new_symbol,
        confidence,
        body_diff,
        related_changes: Vec::new(),
        intent: None,
    }
}

fn body_if_changed(o: &Symbol, n: &Symbol) -> (r: Option<crate::diff::body_diff::BodyDiff>)
    ensures
        crate::diff::change::opt_body_view(r) == body_if_differs(o@, n@),
{
    if !hash_eq(&o.body_hash, &n.body_hash) {
        Some(body_diff(o.body_text.as_str(), n.body_text.as_str()))
    } else {
        None
    }
}

/// Appends the changes of the matched pairs of one file.
fn push_pair_changes(
    o: &Vec<Symbol>,
    n: &Vec<Symbol>,
    matched: &Vec<(usize, usize, Ratio)>,
    changes: &mut Vec<SemanticChange>,
)
    requires
        ids_in_order(old(changes)@),
        forall|k: int|
            0 <= k < matched@.len() ==> (#[trigger] matched@[k]).0 < o@.len() && matched@[k].1
                < n@.len(),
    ensures
        ids_in_order(final(changes)@),
        unnumbered(changes_view(final(changes)@)) == unnumbered(changes_view(old(changes)@))
            + pair_drafts(syms_view(o@), syms_view(n@), matched@),
{
    let ghost base = unnumbered(changes_view(changes@));
    let ghost ov = syms_view(o@);
    let ghost nv = syms_view(n@);
    let mut k: usize = 0;
    while k < matched.len()
        invariant
            k <= matched.len(),
            ov == syms_view(o@),
            nv == syms_view(n@),
            forall|t: int|
                0 <= t < matched@.len() ==> (#[trigger] matched@[t]).0 < o@.len() && matched@[t].1
                    < n@.len(),
            ids_in_order(changes@),
            unnumbered(changes_view(changes@)) == base + pair_drafts(ov, nv, matched@.take(k as int)),
        decreases matched.len() - k,
    {
        let (oi, ni, conf) = matched[k];
        assert(matched@[k as int].0 < o@.len() && matched@[k as int].1 < n@.len());
        let os = &o[oi];
        let ns = &n[ni];
        assert(ov[oi as int] == os@);
        assert(nv[ni as int] == ns@);
        proof {
            assert(matched@.take(k + 1).drop_last() =~= matched@.take(k as int));
        }
        let same = hash_eq(&os.body_hash, &ns.body_hash) && os.name == ns.name && os.visibility
            == ns.visibility;
        if !same {
            let ghost prev = changes@;
            let kind = classify(os, ns);
            let body = body_if_changed(os, ns);
            let c = new_change(changes.len(), kind, Some(os.duplicate()), Some(ns.duplicate()), conf, body);
            changes.push(c);
            proof {
                assert(unnumbered(changes_view(changes@)) =~= unnumbered(changes_view(prev)).push(
                    with_id(c@, 0),
                ));
            }
        }
        k = k + 1;
    }
    proof {
        assert(matched@.take(matched.len() as int) =~= matched@);
    }
}

/// Appends the symbols at the given indices.
fn push_picked(src: &Vec<Symbol>, idx: &Vec<usize>, out: &mut Vec<Symbol>)
    requires
        forall|k: int| 0 <= k < idx@.len() ==> (#[trigger] idx@[k]) < src@.len(),
        all_comparable(src@),
        all_comparable(old(out)@),
    ensures
        syms_view(final(out)@) == syms_view(old(out)@) + pick(syms_view(src@), idx@),
        all_comparable(final(out)@),
{
    let ghost base = syms_view(out@);
    let mut k: usize = 0;
    while k < idx.len()
        invariant
            k <= idx.len(),
            forall|t: int| 0 <= t < idx@.len() ==> (#[trigger] idx@[t]) < src@.len(),
            all_comparable(src@),
            all_comparable(out@),
            syms_view(out@) == base + pick(syms_view(src@), idx@.take(k as int)),
        decreases idx.len() - k,
    {
        let i = idx[k];
        assert(idx@[k as int] < src@.len());
        let ghost prev = out@;
        out.push(src[i].duplicate());
        proof {
            assert(src@[i as int]@.wf() && src@[i as int]@.comparable());
            assert(syms_view(out@) =~= syms_view(prev).push(src@[i as int]@));
            assert(pick(syms_view(src@), idx@.take(k + 1)) =~= pick(syms_view(src@), idx@.take(
                k as int,
            )).push(src@[i as int]@));
        }
        k = k + 1;
    }
    proof {
        assert(idx@.take(idx.len() as int) =~= idx@);
    }
}

/// Appends copies of all the symbols.
fn push_all(src: &Vec<Symbol>, out: &mut Vec<Symbol>)
    requires
        all_comparable(src@),
        all_comparable(old(out)@),
    ensures
        syms_view(final(out)@) == syms_view(old(out)@) + syms_view(src@),
        all_comparable(final(out)@),
{
    let ghost base = syms_view(out@);
    let mut k: usize = 0;
    while k < src.len()
        invariant
            k <= src.len(),
            all_comparable(src@),
            all_comparable(out@),
            syms_view(out@) == base + syms_view(src@).take(k as int),
        decreases src.len() - k,
    {
        let ghost prev = out@;
        out.push(src[k].duplicate());
        proof {
            assert(src@[k as int]@.wf() && src@[k as int]@.comparable());
            assert(syms_view(out@) =~= syms_view(prev).push(src@[k as int]@));
            assert(syms_view(src@).take(k + 1) =~= syms_view(src@).take(k as int).push(
                src@[k as int]@,
            ));
        }
        k = k + 1;
    }
    proof {
        assert(syms_view(src@).take(src.len() as int) =~= syms_view(src@));
    }
}

fn claimed_flags(cm: &Vec<CrossFileMatch>, n: usize, old_side: bool) -> (r: Vec<bool>)
    requires
        forall|t: int|
            0 <= t < cm@.len() ==> (if old_side {
                (#[trigger] cm@[t]).old_idx
            } else {
                cm@[t].new_idx
            }) < n,
    ensures
        r@.len() == n,
        forall|k: int|
            0 <= k < n ==> r@[k] == if old_side {
                claimed_old(cm@, k)
            } else {
                claimed_new(cm@, k)
            },
{
    let mut flags: Vec<bool> = Vec::new();
    let mut z: usize = 0;
    while z < n
        invariant
            z <= n,
            flags@.len() == z,
            forall|k: int| 0 <= k < z ==> !flags@[k],
        decreases n - z,
    {
        flags.push(false);
        z = z + 1;
    }
    let mut j: usize = 0;
    while j < cm.len()
        invariant
            j <= cm.len(),
            flags@.len() == n,
            forall|t: int|
                0 <= t < cm@.len() ==> (if old_side {
                    (#[trigger] cm@[t]).old_idx
                } else {
                    cm@[t].new_idx
                }) < n,
            forall|k: int|
                0 <= k < n ==> flags@[k] == exists|t: int|
                    0 <= t < j && (if old_side {
                        (#[trigger] cm@[t]).old_idx
                    } else {
                        cm@[t].new_idx
                    }) == k,
        decreases cm.len() - j,
    {
        let x = if old_side {
            cm[j].old_idx
        } else {
            cm[j].new_idx
        };
        assert(x < n);
        let ghost prev = flags@;
        flags.set(x, true);
        proof {
            assert forall|k: int| 0 <= k < n implies flags@[k] == exists|t: int|
                0 <= t < j + 1 && (if old_side {
                    (#[trigger] cm@[t]).old_idx
                } else {
                    cm@[t].new_idx
                }) == k by {
                if k == x {
                    assert(cm@[j as int] == cm@[j as int]);
                } else {
                    assert(flags@[k] == prev[k]);
                    if prev[k] {
                        let t = choose|t: int|
                            0 <= t < j && (if old_side {
                                (#[trigger] cm@[t]).old_idx
                            } else {
                                cm@[t].new_idx
                            }) == k;
                        assert(0 <= t < j + 1);
                    }
                }
            }
        }
        j = j + 1;
    }
    proof {
        assert forall|k: int| 0 <= k < n implies flags@[k] == if old_side {
            claimed_old(cm@, k)
        } else {
            claimed_new(cm@, k)
        } by {
            if old_side {
                if claimed_old(cm@, k) {
                    let t = choose|t: int| 0 <= t < cm@.len() && (#[trigger] cm@[t]).old_idx == k;
                    assert(cm@[t].old_idx == k);
                }
            } else {
                if claimed_new(cm@, k) {
                    let t = choose|t: int| 0 <= t < cm@.len() && (#[trigger] cm@[t]).new_idx == k;
                    assert(cm@[t].new_idx == k);
                }
            }
        }
    }
    flags
}

/// Matches the symbols of each file that both versions have, collecting
/// the changes and what is left unmatched.
fn match_common_files(
    olds: &Vec<FileSymbols>,
    news: &Vec<FileSymbols>,
    changes: &mut Vec<SemanticChange>,
    left_old_syms: &mut Vec<Symbol>,
    left_new_syms: &mut Vec<Symbol>,
)
    requires
        files_comparable(olds@),
        files_comparable(news@),
        old(changes)@.len() == 0,
        old(left_old_syms)@.len() == 0,
        old(left_new_syms)@.len() == 0,
    ensures
        ids_in_order(final(changes)@),
        unnumbered(changes_view(final(changes)@)) == within_upto(
            files_view(olds@),
            files_view(news@),
            olds@.len() as int,
        ),
        syms_view(final(left_old_syms)@) == left_old_common(
            files_view(olds@),
            files_view(news@),
            olds@.len() as int,
        ),
        syms_view(final(left_new_syms)@) == left_new_common(
            files_view(olds@),
            files_view(news@),
            olds@.len() as int,
        ),
        all_comparable(final(left_old_syms)@),
        all_comparable(final(left_new_syms)@),
{
    let ghost ofv = files_view(olds@);
    let ghost nfv = files_view(news@);
    proof {
        assert(unnumbered(changes_view(changes@)) =~= Seq::<ChangeView>::empty());
        assert(syms_view(left_old_syms@) =~= Seq::<SymbolView>::empty());
        assert(syms_view(left_new_syms@) =~= Seq::<SymbolView>::empty());
    }
    let mut i: usize = 0;
    while i < olds.len()
        invariant
            i <= olds.len(),
            ofv == files_view(olds@),
            nfv == files_view(news@),
            files_comparable(olds@),
            files_comparable(news@),
            ids_in_order(changes@),
            unnumbered(changes_view(changes@)) == within_upto(ofv, nfv, i as int),
            syms_view(left_old_syms@) == left_old_common(ofv, nfv, i as int),
            syms_view(left_new_syms@) == left_new_common(ofv, nfv, i as int),
            all_comparable(left_old_syms@),
            all_comparable(left_new_syms@),
        decreases olds.len() - i,
    {
        let j = find_path(news, &olds[i].0);
        if j < news.len() {
            let os = &olds[i].1;
            let ns = &news[j].1;
            assert(all_comparable(olds@[i as int].1@));
            assert(all_comparable(news@[j as int].1@));
            let m = match_symbols(os.as_slice(), ns.as_slice());
            let lo = os.len();
            let ln = ns.len();
            proof {
                assert(syms_view(os@).len() == lo);
                assert(syms_view(ns@).len() == ln);
                lemma_match_partition(syms_view(os@), syms_view(ns@));
                assert(ofv[i as int].1 == syms_view(os@));
                assert(nfv[j as int].1 == syms_view(ns@));
                let ms = match_spec(syms_view(os@), syms_view(ns@));
                assert(m@ == ms);
                assert forall|k: int| 0 <= k < m.matched@.len() implies (#[trigger] m.matched@[k]).0
                    < os@.len() && m.matched@[k].1 < ns@.len() by {
                    assert(ms.matched[k] == m.matched@[k]);
                }
                assert forall|k: int| 0 <= k < m.unmatched_old@.len() implies (
                #[trigger] m.unmatched_old@[k]) < os@.len() by {
                    assert(ms.unmatched_old[k] == m.unmatched_old@[k]);
                }
                assert forall|k: int| 0 <= k < m.unmatched_new@.len() implies (
                #[trigger] m.unmatched_new@[k]) < ns@.len() by {
                    assert(ms.unmatched_new[k] == m.unmatched_new@[k]);
                }
            }
            push_pair_changes(os, ns, &m.matched, changes);
            push_picked(os, &m.unmatched_old, left_old_syms);
            push_picked(ns, &m.unmatched_new, left_new_syms);
        }
        proof {
            assert(ofv[i as int].0 == olds@[i as int].0@);
        }
        i = i + 1;
    }
}

/// Copies the symbols of the files of `a` whose path `b` lacks.
fn collect_only_in(a: &Vec<FileSymbols>, b: &Vec<FileSymbols>, out: &mut Vec<Symbol>)
    requires
        files_comparable(a@),
        all_comparable(old(out)@),
    ensures
        syms_view(final(out)@) == syms_view(old(out)@) + only_in(
            files_view(a@),
            files_view(b@),
            a@.len() as int,
        ),
        all_comparable(final(out)@),
{
    let ghost afv = files_view(a@);
    let ghost bfv = files_view(b@);
    let ghost base = syms_view(out@);
    proof {
        assert(base =~= base + only_in(afv, bfv, 0));
    }
    let mut i: usize = 0;
    while i < a.len()
        invariant
            i <= a.len(),
            afv == files_view(a@),
            bfv == files_view(b@),
            files_comparable(a@),
            all_comparable(out@),
            syms_view(out@) == base + only_in(afv, bfv, i as int),
        decreases a.len() - i,
    {
        let ghost prev = syms_view(out@);
        if find_path(b, &a[i].0) == b.len() {
            assert(all_comparable(a@[i as int].1@));
            push_all(&a[i].1, out);
        }
        proof {
            assert(afv[i as int].0 == a@[i as int].0@);
            assert(afv[i as int].1 == syms_view(a@[i as int].1@));
            assert(syms_view(out@) =~= base + only_in(afv, bfv, i + 1));
        }
        i = i + 1;
    }
}

/// Appends a change for each cross-file match.
fn push_cross_changes(
    uo: &Vec<Symbol>,
    un: &Vec<Symbol>,
    cm: &Vec<CrossFileMatch>,
    changes: &mut Vec<SemanticChange>,
)
    requires
        ids_in_order(old(changes)@),
        found_in_range(cm@, uo@.len(), un@.len()),
    ensures
        ids_in_order(final(changes)@),
        unnumbered(changes_view(final(changes)@)) == unnumbered(changes_view(old(changes)@))
            + cross_drafts(syms_view(uo@), syms_view(un@), cm@),
{
    let ghost base = unnumbered(changes_view(changes@));
    let ghost uv = syms_view(uo@);
    let ghost nv = syms_view(un@);
    let mut k: usize = 0;
    while k < cm.len()
        invariant
            k <= cm.len(),
            uv == syms_view(uo@),
            nv == syms_view(un@),
            found_in_range(cm@, uo@.len(), un@.len()),
            ids_in_order(changes@),
            unnumbered(changes_view(changes@)) == base + cross_drafts(uv, nv, cm@.take(k as int)),
        decreases cm.len() - k,
    {
        let m = cm[k];
        assert(cm@[k as int].old_idx < uo@.len() && cm@[k as int].new_idx < un@.len());
        let o = &uo[m.old_idx];
        let n = &un[m.new_idx];
        assert(uv[m.old_idx as int] == o@);
        assert(nv[m.new_idx as int] == n@);
        let kind = match m.match_type {
            CrossMatchType::ExactBody => ChangeKind::Moved {
                from_file: o.file_path.clone(),
                to_file: n.file_path.clone(),
            },
            CrossMatchType::NameAndBody => ChangeKind::MovedAndModified {
                from_file: o.file_path.clone(),
                to_file: n.file_path.clone(),
            },
            CrossMatchType::SimilarBody => ChangeKind::MovedAndModified {
                from_file: o.file_path.clone(),
                to_file: n.file_path.clone(),
            },
            CrossMatchType::Extracted => ChangeKind::Extracted {
                from_symbol: o.name.clone(),
                new_symbol: n.name.clone(),
                source_file: o.file_path.clone(),
            },
            CrossMatchType::Inlined => ChangeKind::Inlined {
                from_symbol: o.name.clone(),
                into_symbol: n.name.clone(),
            },
        };
        let body = body_if_changed(o, n);
        let ghost prev = changes@;
        let c = new_change(changes.len(), kind, Some(o.duplicate()), Some(n.duplicate()), m.confidence, body);
        changes.push(c);
        proof {
            assert(unnumbered(changes_view(changes@)) =~= unnumbered(changes_view(prev)).push(
                with_id(c@, 0),
            ));
            assert(with_id(c@, 0) == cross_draft(uv, nv, m));
            assert(cross_drafts(uv, nv, cm@.take(k + 1)) =~= cross_drafts(uv, nv, cm@.take(
                k as int,
            )).push(cross_draft(uv, nv, cm@[k as int])));
        }
        k = k + 1;
    }
    proof {
        assert(cm@.take(cm.len() as int) =~= cm@);
    }
}

/// Appends a deletion for each left-over old symbol and an addition for
/// each left-over new symbol that no cross-file match claims.
fn push_leftovers(
    uo: &Vec<Symbol>,
    un: &Vec<Symbol>,
    cm: &Vec<CrossFileMatch>,
    changes: &mut Vec<SemanticChange>,
)
    requires
        ids_in_order(old(changes)@),
        found_in_range(cm@, uo@.len(), un@.len()),
    ensures
        ids_in_order(final(changes)@),
        unnumbered(changes_view(final(changes)@)) == unnumbered(changes_view(old(changes)@))
            + deleted_drafts(syms_view(uo@), cm@, uo@.len() as int) + added_drafts(
            syms_view(un@),
            cm@,
            un@.len() as int,
        ),
{
    let ghost base = unnumbered(changes_view(changes@));
    let ghost uv = syms_view(uo@);
    let ghost nv = syms_view(un@);
    let taken_old = claimed_flags(cm, uo.len(), true);
    let taken_new = claimed_flags(cm, un.len(), false);
    let mut k: usize = 0;
    while k < uo.len()
        invariant
            k <= uo.len(),
            uv == syms_view(uo@),
            taken_old@.len() == uo@.len(),
            forall|t: int| 0 <= t < uo@.len() ==> taken_old@[t] == claimed_old(cm@, t),
            ids_in_order(changes@),
            unnumbered(changes_view(changes@)) == base + deleted_drafts(uv, cm@, k as int),
        decreases uo.len() - k,
    {
        if !taken_old[k] {
            let ghost prev = changes@;
            let c = new_change(
                changes.len(),
                ChangeKind::Deleted,
                Some(uo[k].duplicate()),
                None,
                Ratio { num: 1, den: 1 },
                None,
            );
            changes.push(c);
            proof {
                assert(unnumbered(changes_view(changes@)) =~= unnumbered(changes_view(prev)).push(
                    with_id(c@, 0),
                ));
            }
        }
        proof {
            assert(uv[k as int] == uo@[k as int]@);
        }
        k = k + 1;
    }
    let ghost mid = unnumbered(changes_view(changes@));
    let mut k: usize = 0;
    while k < un.len()
        invariant
            k <= un.len(),
            nv == syms_view(un@),
            taken_new@.len() == un@.len(),
            forall|t: int| 0 <= t < un@.len() ==> taken_new@[t] == claimed_new(cm@, t),
            ids_in_order(changes@),
            unnumbered(changes_view(changes@)) == mid + added_drafts(nv, cm@, k as int),
        decreases un.len() - k,
    {
        if !taken_new[k] {
            let ghost prev = changes@;
            let c = new_change(
                changes.len(),
                ChangeKind::Added,
                None,
                Some(un[k].duplicate()),
                Ratio { num: 1, den: 1 },
                None,
            );
            changes.push(c);
            proof {
                assert(unnumbered(changes_view(changes@)) =~= unnumbered(changes_view(prev)).push(
                    with_id(c@, 0),
                ));
            }
        }
        proof {
            assert(nv[k as int] == un@[k as int]@);
        }
        k = k + 1;
    }
}

/// Sets the intent of every change.
fn attach_intents(changes: &mut Vec<SemanticChange>)
    ensures
        changes_view(final(changes)@) == changes_view(old(changes)@).map_values(
            |c: ChangeView| with_intent(c),
        ),
{
    let ghost l = changes_view(changes@);
    let mut i: usize = 0;
    while i < changes.len()
        invariant
            i <= changes.len(),
            changes@.len() == l.len(),
            forall|k: int| 0 <= k < i ==> changes_view(changes@)[k] == with_intent(l[k]),
            forall|k: int| i <= k < l.len() ==> changes_view(changes@)[k] == l[k],
        decreases changes.len() - i,
    {
        let cls = classify_intent(&changes[i]);
        let ghost prev = changes@;
        assert(prev[i as int]@ == l[i as int]);
        changes[i].intent = Some(cls);
        proof {
            assert(changes@[i as int]@ == with_intent(l[i as int]));
            assert forall|k: int| 0 <= k < i + 1 implies changes_view(changes@)[k] == with_intent(
                l[k],
            ) by {
                if k < i {
                    assert(changes@[k] == prev[k]);
                    assert(changes_view(prev)[k] == with_intent(l[k]));
                }
            }
            assert forall|k: int| i + 1 <= k < l.len() implies changes_view(changes@)[k] == l[k] by {
                assert(changes@[k] == prev[k]);
                assert(changes_view(prev)[k] == l[k]);
            }
        }
        i = i + 1;
    }
    proof {
        assert(changes_view(changes@) =~= l.map_values(|c: ChangeView| with_intent(c)));
    }
}

/// The diff pipeline shared by directory and git modes: within-file
/// matching of the files both versions have, cross-file detection among the
/// symbols left over, deletions and additions of the rest, links between
/// extractions and their sources, and each change's intent.
pub fn run_diff_pipeline(
    old_symbols: Vec<FileSymbols>,
    new_symbols: Vec<FileSymbols>,
    old_files: Vec<String>,
    new_files: Vec<String>,
) -> (r: DiffResult)
    requires
        files_comparable(old_symbols@),
        files_comparable(new_symbols@),
    ensures
        changes_view(r.changes@) == pipeline_changes(files_view(old_symbols@), files_view(new_symbols@)),
        r.old_files@ == old_files@,
        r.new_files@ == new_files@,
        r.summary.counts(kinds_of(r.changes@)),
        ids_are_positions(changes_view(r.changes@)),
        links_mutual(changes_view(r.changes@)),
{
    let ghost ofv = files_view(old_symbols@);
    let ghost nfv = files_view(new_symbols@);
    let mut changes: Vec<SemanticChange> = Vec::new();
    let mut left_old_syms: Vec<Symbol> = Vec::new();
    let mut left_new_syms: Vec<Symbol> = Vec::new();
    match_common_files(&old_symbols, &new_symbols, &mut changes, &mut left_old_syms, &mut left_new_syms);
    collect_only_in(&old_symbols, &new_symbols, &mut left_old_syms);
    collect_only_in(&new_symbols, &old_symbols, &mut left_new_syms);
    let ghost uv = syms_view(left_old_syms@);
    let ghost nv = syms_view(left_new_syms@);
    assert(uv == left_old(ofv, nfv));
    assert(nv == left_new(ofv, nfv));
    let cm = detect_cross_file_moves(left_old_syms.as_slice(), left_new_syms.as_slice());
    push_cross_changes(&left_old_syms, &left_new_syms, &cm, &mut changes);
    push_leftovers(&left_old_syms, &left_new_syms, &cm, &mut changes);
    proof {
        assert(unnumbered(changes_view(changes@)) =~= pipeline_drafts(ofv, nfv));
        lemma_numbered(changes@, pipeline_drafts(ofv, nfv));
    }
    link_related_changes(&mut changes);
    attach_intents(&mut changes);
    let count = changes.len();
    proof {
        assert(changes_view(changes@) == pipeline_changes(ofv, nfv));
        assert(changes_view(changes@).len() == count);
        lemma_pipeline_links(ofv, nfv);
    }
    let summary = DiffSummary::from_changes(changes.as_slice());
    DiffResult { changes, old_files, new_files, summary }
}

} // verus!
