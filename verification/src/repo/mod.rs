//! Repository-wide impact analysis: call graph, similar code, and risk.
pub mod similarity;
pub mod call_graph;
pub mod impact;

use vstd::prelude::*;

use crate::ast::call_refs::{refs_view, CallReference, RefView};
use crate::ast::symbol::{Symbol, SymbolView};
use crate::ast::{calls_of_contents, contents_calls, contents_symbols, contents_view, symbols_of_contents};
use crate::diff::matcher::syms_view;
use crate::diff::change::{ChangeView, SemanticChange};
use crate::index::RepoIndex;
use crate::ratio::Ratio;
use crate::repo::call_graph::{
    callers_of_spec, graph_add, lemma_table_find, short_name, table_append, table_find, table_get, CallGraph, EdgeTable,
    EdgeView, GraphView,
};
use crate::repo::impact::{analyze_impact, impact_spec, ImpactAnalysis};
use crate::repo::similarity::{
    all_syms_view, build_from_cache_spec, build_spec, entries_view, find_similar_spec, sketch_ok,
    SimilarityIndex,
};

verus! {

/// The analysis of a repository for a set of changes.
#[derive(Debug)]
pub struct RepoAnalysis {
    pub call_graph_edges: usize,
    pub total_repo_symbols: usize,
    pub impact: ImpactAnalysis,
}

/// The graph after adding the edge of one call (caller, callee, file, line).
pub open spec fn graph_add_view(g: GraphView, r: RefView) -> GraphView {
    GraphView {
        calls: table_append(g.calls, r.0, r),
        callers: table_append(g.callers, r.1, r),
        total_edges: (g.total_edges + 1) as usize,
    }
}

/// The call graph of a list of calls.
pub open spec fn graph_from(refs: Seq<RefView>) -> GraphView
    decreases refs.len(),
{
    if refs.len() == 0 {
        GraphView { calls: Seq::empty(), callers: Seq::empty(), total_edges: 0 }
    } else {
        graph_add_view(graph_from(refs.drop_last()), refs.last())
    }
}

// ------------------------------------------------------ callers by name

/// The calls among `refs` whose callee is `name`, in order.
pub open spec fn calls_to(refs: Seq<RefView>, name: Seq<char>) -> Seq<RefView> {
    refs.filter(callee_is(name))
}

/// Whether a call's callee is `name`.
pub open spec fn callee_is(name: Seq<char>) -> spec_fn(RefView) -> bool {
    |r: RefView| r.1 == name
}

proof fn lemma_find_update(t: EdgeTable, j: int, v: Seq<EdgeView>, key: Seq<char>, i: int)
    requires
        0 <= j < t.len(),
        0 <= i <= t.len(),
    ensures
        table_find(t.update(j, (t[j].0, v)), key, i) == table_find(t, key, i),
    decreases t.len() - i,
{
    if i < t.len() {
        lemma_find_update(t, j, v, key, i + 1);
    }
}

proof fn lemma_find_push(t: EdgeTable, x: (Seq<char>, Seq<EdgeView>), key: Seq<char>, i: int)
    requires
        0 <= i <= t.len(),
    ensures
        table_find(t.push(x), key, i) == if table_find(t, key, i) < t.len() {
            table_find(t, key, i)
        } else if x.0 == key {
            t.len() as int
        } else {
            t.len() + 1int
        },
    decreases t.len() - i,
{
    if i < t.len() {
        assert(t.push(x)[i] == t[i]);
        lemma_find_push(t, x, key, i + 1);
    } else {
        assert(t.push(x)[i] == x);
        assert(table_find(t.push(x), key, i + 1) == t.len() + 1);
    }
}

/// The callers table of the graph of `refs` lists, under each callee, the
/// calls to it in order, and has no entry for a name nothing calls.
proof fn lemma_callers_table(refs: Seq<RefView>, key: Seq<char>)
    ensures
        table_get(graph_from(refs).callers, key) == if calls_to(refs, key).len() > 0 {
            Some(calls_to(refs, key))
        } else {
            None::<Seq<EdgeView>>
        },
    decreases refs.len(),
{
    let p = callee_is(key);
    if refs.len() == 0 {
        assert(calls_to(refs, key) =~= Seq::<RefView>::empty());
    } else {
        let init = refs.drop_last();
        let last = refs.last();
        lemma_callers_table(init, key);
        assert(refs =~= init.push(last));
        init.lemma_filter_push(last, p);
        let t0 = graph_from(init).callers;
        let t = graph_from(refs).callers;
        let i0 = table_find(t0, last.1, 0);
        lemma_table_find(t0, last.1, 0);
        lemma_table_find(t0, key, 0);
        if i0 < t0.len() {
            assert(t == t0.update(i0, (t0[i0].0, t0[i0].1.push(last))));
            lemma_find_update(t0, i0, t0[i0].1.push(last), key, 0);
            if key != last.1 {
                let r = table_find(t0, key, 0);
                if r < t0.len() {
                    assert(r != i0);
                }
            }
        } else {
            assert(t == t0.push((last.1, seq![last])));
            lemma_find_push(t0, (last.1, seq![last]), key, 0);
            if key == last.1 {
                assert(calls_to(init, key).len() == 0);
                assert(calls_to(init, key) =~= Seq::<RefView>::empty());
                assert(calls_to(refs, key) =~= seq![last]);
            }
        }
    }
}

/// The callers of a name in the graph of `refs` are the calls to that name,
/// in order; when nothing calls it and its short name (after the last `::`)
/// differs, they are the calls to the short name.
pub proof fn lemma_callers_of_built(refs: Seq<RefView>, name: Seq<char>)
    ensures
        callers_of_spec(graph_from(refs), name) == if calls_to(refs, name).len() > 0 {
            calls_to(refs, name)
        } else if short_name(name) != name {
            calls_to(refs, short_name(name))
        } else {
            Seq::<EdgeView>::empty()
        },
{
    lemma_callers_table(refs, name);
    lemma_callers_table(refs, short_name(name));
    if calls_to(refs, short_name(name)).len() == 0 {
        assert(calls_to(refs, short_name(name)) =~= Seq::<EdgeView>::empty());
    }
}


/// The symbols of the changes, each change's new symbol or else its old
/// one.
pub open spec fn changed_symbols_spec(cs: Seq<ChangeView>) -> Seq<SymbolView>
    decreases cs.len(),
{
    if cs.len() == 0 {
        Seq::empty()
    } else {
        let r = changed_symbols_spec(cs.drop_last());
        match cs.last().new_symbol {
            Some(s) => r.push(s),
            None => match cs.last().old_symbol {
                Some(s) => r.push(s),
                None => r,
            },
        }
    }
}

/// Symbols that the similarity search can take.
pub open spec fn searchable(cs: Seq<ChangeView>) -> bool {
    forall|i: int|
        0 <= i < cs.len() ==> (match (#[trigger] cs[i]).new_symbol {
            Some(s) => s.wf() && s.comparable(),
            None => match cs[i].old_symbol {
                Some(s) => s.wf() && s.comparable(),
                None => true,
            },
        })
}

/// The least similarity reported: three fifths.
pub open spec fn min_similarity() -> Ratio {
    Ratio { num: 3, den: 5 }
}

pub(crate) fn build_graph(refs: &[CallReference]) -> (r: CallGraph)
    ensures
        r@ == graph_from(refs_view(refs@)),
        r@.total_edges == refs@.len(),
{
    let mut g = CallGraph::new();
    proof {
        assert(g@.calls =~= Seq::empty());
        assert(g@.callers =~= Seq::empty());
        assert(refs_view(refs@).take(0) =~= Seq::<RefView>::empty());
    }
    let mut i: usize = 0;
    while i < refs.len()
        invariant
            i <= refs@.len(),
            g@ == graph_from(refs_view(refs@).take(i as int)),
            g@.total_edges == i,
        decreases refs.len() - i,
    {
        proof {
            assert(refs_view(refs@).take(i + 1).drop_last() =~= refs_view(refs@).take(i as int));
            assert(refs_view(refs@).take(i + 1).last() == refs@[i as int]@);
        }
        g.add_ref(&refs[i]);
        i = i + 1;
    }
    proof {
        assert(refs_view(refs@).take(refs@.len() as int) =~= refs_view(refs@));
    }
    g
}

fn changed_symbols(changes: &[SemanticChange]) -> (r: Vec<Symbol>)
    ensures
        all_syms_view(r@) == changed_symbols_spec(crate::diff::changes_view(changes@)),
{
    let ghost cv = crate::diff::changes_view(changes@);
    let mut out: Vec<Symbol> = Vec::new();
    let mut i: usize = 0;
    proof {
        assert(cv.take(0) =~= Seq::<ChangeView>::empty());
        assert(all_syms_view(out@) =~= Seq::<SymbolView>::empty());
    }
    while i < changes.len()
        invariant
            i <= changes@.len(),
            cv == crate::diff::changes_view(changes@),
            all_syms_view(out@) == changed_symbols_spec(cv.take(i as int)),
        decreases changes.len() - i,
    {
        proof {
            assert(cv.take(i + 1).drop_last() =~= cv.take(i as int));
            assert(cv.take(i + 1).last() == changes@[i as int]@);
        }
        let ghost before = all_syms_view(out@);
        let c = &changes[i];
        match &c.new_symbol {
            Some(s) => {
                out.push(s.duplicate());
                proof {
                    assert(all_syms_view(out@) =~= before.push(s@));
                }
            },
            None => match &c.old_symbol {
                Some(s) => {
                    out.push(s.duplicate());
                    proof {
                        assert(all_syms_view(out@) =~= before.push(s@));
                    }
                },
                None => {},
            },
        }
        i = i + 1;
    }
    proof {
        assert(cv.take(changes@.len() as int) =~= cv);
    }
    out
}

proof fn lemma_changed_symbols_ok(cs: Seq<ChangeView>)
    requires
        searchable(cs),
    ensures
        forall|i: int|
            0 <= i < changed_symbols_spec(cs).len() ==> (#[trigger] changed_symbols_spec(cs)[i]).wf()
                && changed_symbols_spec(cs)[i].comparable(),
    decreases cs.len(),
{
    if cs.len() > 0 {
        assert(searchable(cs.drop_last())) by {
            assert forall|i: int| 0 <= i < cs.drop_last().len() implies (match (#[trigger] cs.drop_last()[i]).new_symbol {
                Some(s) => s.wf() && s.comparable(),
                None => match cs.drop_last()[i].old_symbol {
                    Some(s) => s.wf() && s.comparable(),
                    None => true,
                },
            }) by {
                assert(cs.drop_last()[i] == cs[i]);
            }
        }
        lemma_changed_symbols_ok(cs.drop_last());
        let r = changed_symbols_spec(cs.drop_last());
        let full = changed_symbols_spec(cs);
        assert(forall|i: int| 0 <= i < r.len() ==> full[i] == r[i]);
        assert(match cs[cs.len() - 1].new_symbol {
            Some(s) => s.wf() && s.comparable(),
            None => match cs[cs.len() - 1].old_symbol {
                Some(s) => s.wf() && s.comparable(),
                None => true,
            },
        });
        assert forall|i: int| 0 <= i < full.len() implies (#[trigger] full[i]).wf() && full[i].comparable() by {
            if i < r.len() {
                assert(full[i] == r[i]);
            }
        }
    }
}

/// The analysis from a stored index: the call graph of its references,
/// similar code among its symbols (by its cached similarity data) with at
/// least three fifths similarity to a changed symbol, and the impact.
pub fn analyze_from_index(index: &RepoIndex, changes: &[SemanticChange], impact_depth: usize) -> (r: RepoAnalysis)
    requires
        forall|i: int| 0 <= i < index.symbols@.len() ==> (#[trigger] index.symbols@[i])@.wf(),
        forall|i: int| 0 <= i < index.shingle_cache@.len() ==> sketch_ok((#[trigger] index.shingle_cache@[i]).shingles@),
        searchable(crate::diff::changes_view(changes@)),
    ensures
        r.call_graph_edges == index.call_refs@.len(),
        r.total_repo_symbols == index.symbols@.len(),
        impact_spec(
            r.impact,
            crate::diff::changes_view(changes@),
            graph_from(refs_view(index.call_refs@)),
            impact_depth,
            find_similar_spec(
                build_from_cache_spec(all_syms_view(index.symbols@), entries_view(index.shingle_cache@)),
                changed_symbols_spec(crate::diff::changes_view(changes@)),
                min_similarity(),
            ),
        ),
{
    let call_graph = build_graph(index.call_refs.as_slice());
    let total_edges = call_graph.total_edges;
    let total_symbols = index.symbols.len();
    let sim_index = SimilarityIndex::build_from_cache(index.symbols.as_slice(), index.shingle_cache.as_slice());
    let changed = changed_symbols(changes);
    proof {
        lemma_changed_symbols_ok(crate::diff::changes_view(changes@));
        assert forall|i: int| 0 <= i < changed@.len() implies (#[trigger] changed@[i])@.wf() && changed@[i]@.comparable() by {
            assert(all_syms_view(changed@)[i] == changed@[i]@);
        }
    }
    let similar_code = sim_index.find_similar(changed.as_slice(), Ratio::new(3, 5));
    let impact = analyze_impact(changes, &call_graph, similar_code.as_slice(), impact_depth);
    RepoAnalysis { call_graph_edges: total_edges, total_repo_symbols: total_symbols, impact }
}

/// The analysis from the symbols and call references of a repository's
/// files: the call graph of the references, similar code among the symbols
/// with at least three fifths similarity to a changed symbol, and the
/// impact.
pub fn analyze_from_symbols(
    all_symbols: &[Symbol],
    call_refs: &[CallReference],
    changes: &[SemanticChange],
    impact_depth: usize,
) -> (r: RepoAnalysis)
    requires
        forall|i: int| 0 <= i < all_symbols@.len() ==> (#[trigger] all_symbols@[i])@.wf() && all_symbols@[i]@.comparable(),
        searchable(crate::diff::changes_view(changes@)),
    ensures
        r.call_graph_edges == call_refs@.len(),
        r.total_repo_symbols == all_symbols@.len(),
        impact_spec(
            r.impact,
            crate::diff::changes_view(changes@),
            graph_from(refs_view(call_refs@)),
            impact_depth,
            find_similar_spec(
                build_spec(all_syms_view(all_symbols@)),
                changed_symbols_spec(crate::diff::changes_view(changes@)),
                min_similarity(),
            ),
        ),
{
    let call_graph = build_graph(call_refs);
    let total_edges = call_graph.total_edges;
    let total_symbols = all_symbols.len();
    let sim_index = SimilarityIndex::build(all_symbols);
    let changed = changed_symbols(changes);
    proof {
        lemma_changed_symbols_ok(crate::diff::changes_view(changes@));
        assert forall|i: int| 0 <= i < changed@.len() implies (#[trigger] changed@[i])@.wf() && changed@[i]@.comparable() by {
            assert(all_syms_view(changed@)[i] == changed@[i]@);
        }
    }
    let similar_code = sim_index.find_similar(changed.as_slice(), Ratio::new(3, 5));
    let impact = analyze_impact(changes, &call_graph, similar_code.as_slice(), impact_depth);
    RepoAnalysis { call_graph_edges: total_edges, total_repo_symbols: total_symbols, impact }
}


/// Every symbol can take part in a similarity search.
pub open spec fn all_searchable(s: Seq<SymbolView>) -> bool {
    forall|i: int| 0 <= i < s.len() ==> (#[trigger] s[i]).wf() && s[i].comparable()
}

fn all_comparable_syms(syms: &Vec<Symbol>) -> (r: bool)
    ensures
        r == all_searchable(all_syms_view(syms@)),
{
    let ghost sv = all_syms_view(syms@);
    let mut i: usize = 0;
    while i < syms.len()
        invariant
            i <= syms@.len(),
            sv == all_syms_view(syms@),
            forall|k: int| 0 <= k < i ==> (#[trigger] sv[k]).wf() && sv[k].comparable(),
        decreases syms.len() - i,
    {
        assert(sv[i as int] == syms@[i as int]@);
        if !syms[i].is_comparable() {
            return false;
        }
        i = i + 1;
    }
    true
}

/// The analysis from the files of a repository given with their bytes: the
/// call graph of their calls, similar code among their symbols with at
/// least three fifths similarity to a changed symbol, and the impact;
/// `None` when a symbol is too long to be compared exactly.
pub fn analyze_from_contents(
    files: &[(String, Vec<u8>)],
    changes: &[SemanticChange],
    impact_depth: usize,
) -> (r: Option<RepoAnalysis>)
    requires
        searchable(crate::diff::changes_view(changes@)),
    ensures
        match r {
            Some(a) => {
                let cv = contents_view(files@);
                &&& all_searchable(contents_symbols(cv))
                &&& a.call_graph_edges == contents_calls(cv).len()
                &&& a.total_repo_symbols == contents_symbols(cv).len()
                &&& impact_spec(
                    a.impact,
                    crate::diff::changes_view(changes@),
                    graph_from(contents_calls(cv)),
                    impact_depth,
                    find_similar_spec(
                        build_spec(contents_symbols(cv)),
                        changed_symbols_spec(crate::diff::changes_view(changes@)),
                        min_similarity(),
                    ),
                )
            },
            None => !all_searchable(contents_symbols(contents_view(files@))),
        },
{
    let refs = calls_of_contents(files);
    let syms = symbols_of_contents(files);
    if !all_comparable_syms(&syms) {
        return None;
    }
    proof {
        assert forall|i: int| 0 <= i < syms@.len() implies (#[trigger] syms@[i])@.wf() && syms@[i]@.comparable() by {
            assert(all_syms_view(syms@)[i] == syms@[i]@);
        }
        assert(all_syms_view(syms@) == syms_view(syms@));
    }
    Some(analyze_from_symbols(syms.as_slice(), refs.as_slice(), changes, impact_depth))
}

} // verus!
