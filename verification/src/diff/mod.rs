//! The semantic diff engine: matching, classification, cross-file detection.
pub mod body_diff;
pub mod change;
pub mod classifier;
pub mod cross_file;
pub mod intent;
pub mod matcher;
pub mod pipeline;
pub mod sources;

use vstd::prelude::*;

use crate::diff::change::{ChangeKind, ChangeKindView, ChangeView, SemanticChange};

verus! {

pub open spec fn changes_view(s: Seq<SemanticChange>) -> Seq<ChangeView> {
    s.map_values(|c: SemanticChange| c@)
}

/// The symbol an extraction came from.
pub open spec fn extracted_from(k: ChangeKindView) -> Seq<char> {
    match k {
        ChangeKindView::Extracted { from_symbol, .. } => from_symbol,
        _ => Seq::empty(),
    }
}

/// Each extraction's id with the name of the symbol it came from, in order.
pub open spec fn extraction_sources(cs: Seq<ChangeView>) -> Seq<(usize, Seq<char>)> {
    cs.filter(|c: ChangeView| c.kind is Extracted).map_values(
        |c: ChangeView| (c.id, extracted_from(c.kind)),
    )
}

/// Whether change `c` (not the extraction `eid`) had an old symbol named `from`.
pub open spec fn is_source(c: ChangeView, eid: usize, from: Seq<char>) -> bool {
    c.id != eid && match c.old_symbol {
        Some(s) => s.name == from,
        None => false,
    }
}

pub open spec fn first_source(cs: Seq<ChangeView>, eid: usize, from: Seq<char>, k: int) -> int
    decreases cs.len() - k,
{
    if k < 0 || k >= cs.len() {
        cs.len() as int
    } else if is_source(cs[k], eid, from) {
        k
    } else {
        first_source(cs, eid, from, k + 1)
    }
}

pub open spec fn first_with_id(cs: Seq<ChangeView>, id: usize, k: int) -> int
    decreases cs.len() - k,
{
    if k < 0 || k >= cs.len() {
        cs.len() as int
    } else if cs[k].id == id {
        k
    } else {
        first_with_id(cs, id, k + 1)
    }
}

pub open spec fn with_related(c: ChangeView, x: usize) -> ChangeView {
    ChangeView {
        id: c.id,
        kind: c.kind,
        old_symbol: c.old_symbol,
        new_symbol: c.new_symbol,
        confidence: c.confidence,
        body_diff: c.body_diff,
        related_changes: c.related_changes.push(x),
        intent: c.intent,
    }
}

/// Appends `x` to the related changes of the first change with id `id`.
pub open spec fn relate(cs: Seq<ChangeView>, id: usize, x: usize) -> Seq<ChangeView> {
    let a = first_with_id(cs, id, 0);
    if a < cs.len() {
        cs.update(a, with_related(cs[a], x))
    } else {
        cs
    }
}

/// Links one extraction with the first change whose old symbol it came from.
pub open spec fn link_one(cs: Seq<ChangeView>, e: (usize, Seq<char>)) -> Seq<ChangeView> {
    let s = first_source(cs, e.0, e.1, 0);
    if s < cs.len() {
        let sid = cs[s].id;
        relate(relate(cs, e.0, sid), sid, e.0)
    } else {
        cs
    }
}

pub open spec fn link_all(cs: Seq<ChangeView>, es: Seq<(usize, Seq<char>)>) -> Seq<ChangeView>
    decreases es.len(),
{
    if es.len() == 0 {
        cs
    } else {
        link_one(link_all(cs, es.drop_last()), es.last())
    }
}

/// Every extraction is linked both ways with its source change.
pub open spec fn link_spec(cs: Seq<ChangeView>) -> Seq<ChangeView> {
    link_all(cs, extraction_sources(cs))
}

/// Each change's id is its position.
pub open spec fn ids_are_positions(cs: Seq<ChangeView>) -> bool {
    forall|k: int| 0 <= k < cs.len() ==> (#[trigger] cs[k]).id == k
}

/// Every related change exists and lists the change back.
pub open spec fn links_mutual(cs: Seq<ChangeView>) -> bool {
    forall|a: int, j: int|
        0 <= a < cs.len() && 0 <= j < cs[a].related_changes.len() ==> (
        #[trigger] cs[a].related_changes[j]) < cs.len() && cs[cs[a].related_changes[j] as int].related_changes.contains(
            a as usize,
        )
}

proof fn lemma_first_with_id(cs: Seq<ChangeView>, id: int, k: int)
    requires
        ids_are_positions(cs),
        0 <= k <= id < cs.len(),
    ensures
        first_with_id(cs, id as usize, k) == id,
    decreases id - k,
{
    assert(cs[id].id == id);
    if k < id {
        assert(cs[k].id == k);
        lemma_first_with_id(cs, id, k + 1);
    }
}

proof fn lemma_first_with_id_range(cs: Seq<ChangeView>, id: usize, k: int)
    requires
        0 <= k <= cs.len(),
    ensures
        k <= first_with_id(cs, id, k) <= cs.len(),
    decreases cs.len() - k,
{
    if k < cs.len() && cs[k].id != id {
        lemma_first_with_id_range(cs, id, k + 1);
    }
}

/// Linking changes no change's position.
pub proof fn lemma_link_all_len(cs: Seq<ChangeView>, es: Seq<(usize, Seq<char>)>)
    ensures
        link_all(cs, es).len() == cs.len(),
    decreases es.len(),
{
    if es.len() > 0 {
        lemma_link_all_len(cs, es.drop_last());
        let c = link_all(cs, es.drop_last());
        let e = es.last();
        let s = first_source(c, e.0, e.1, 0);
        if s < c.len() {
            let sid = c[s].id;
            lemma_first_with_id_range(c, e.0, 0);
            let c1 = relate(c, e.0, sid);
            lemma_first_with_id_range(c1, sid, 0);
        }
    }
}

proof fn lemma_first_source(cs: Seq<ChangeView>, eid: usize, from: Seq<char>, k: int)
    requires
        0 <= k <= cs.len(),
    ensures
        k <= first_source(cs, eid, from, k) <= cs.len(),
        first_source(cs, eid, from, k) < cs.len() ==> is_source(cs[first_source(cs, eid, from, k)], eid, from),
    decreases cs.len() - k,
{
    if k < cs.len() && !is_source(cs[k], eid, from) {
        lemma_first_source(cs, eid, from, k + 1);
    }
}

proof fn lemma_link_one(cs: Seq<ChangeView>, e: (usize, Seq<char>))
    requires
        ids_are_positions(cs),
        links_mutual(cs),
        e.0 < cs.len(),
    ensures
        link_one(cs, e).len() == cs.len(),
        ids_are_positions(link_one(cs, e)),
        links_mutual(link_one(cs, e)),
{
    lemma_first_source(cs, e.0, e.1, 0);
    let s = first_source(cs, e.0, e.1, 0);
    if s < cs.len() {
        let x = e.0 as int;
        assert(s != x);
        lemma_first_with_id(cs, x, 0);
        let c1 = relate(cs, e.0, s as usize);
        assert(c1 == cs.update(x, with_related(cs[x], s as usize)));
        lemma_first_with_id(c1, s, 0);
        let c2 = relate(c1, s as usize, e.0);
        assert(c2 == c1.update(s, with_related(c1[s], e.0)));
        assert forall|k: int| 0 <= k < c2.len() implies #[trigger] c2[k].related_changes == if k == x {
            cs[k].related_changes.push(s as usize)
        } else if k == s {
            cs[k].related_changes.push(e.0)
        } else {
            cs[k].related_changes
        } by {}
        assert forall|a: int, j: int|
            0 <= a < c2.len() && 0 <= j < c2[a].related_changes.len() implies (
            #[trigger] c2[a].related_changes[j]) < c2.len() && c2[c2[a].related_changes[j] as int].related_changes.contains(
                a as usize,
            ) by {
            let r = c2[a].related_changes;
            let n = cs[a].related_changes.len();
            if (a == x || a == s) && j == n {
                let y = r[j] as int;
                assert(c2[y].related_changes[cs[y].related_changes.len() as int] == a as usize);
            } else {
                assert(r[j] == cs[a].related_changes[j]);
                let y = r[j] as int;
                assert(cs[a].related_changes[j] < cs.len());
                assert(cs[y].related_changes.contains(a as usize));
                let t = choose|t: int| 0 <= t < cs[y].related_changes.len() && cs[y].related_changes[t] == a as usize;
                assert(c2[y].related_changes[t] == a as usize);
            }
        }
    }
}

proof fn lemma_link_all(cs: Seq<ChangeView>, es: Seq<(usize, Seq<char>)>)
    requires
        ids_are_positions(cs),
        links_mutual(cs),
        forall|k: int| 0 <= k < es.len() ==> (#[trigger] es[k]).0 < cs.len(),
    ensures
        link_all(cs, es).len() == cs.len(),
        ids_are_positions(link_all(cs, es)),
        links_mutual(link_all(cs, es)),
    decreases es.len(),
{
    if es.len() > 0 {
        let init = es.drop_last();
        assert forall|k: int| 0 <= k < init.len() implies (#[trigger] init[k]).0 < cs.len() by {
            assert(init[k] == es[k]);
        }
        lemma_link_all(cs, init);
        assert(es[es.len() - 1].0 < cs.len());
        lemma_link_one(link_all(cs, init), es.last());
    }
}

/// Linking keeps every change in its place and its id, and when the links
/// went both ways before, they still do: an extraction and its source each
/// list the other.
pub proof fn lemma_links_mutual(cs: Seq<ChangeView>)
    requires
        ids_are_positions(cs),
        links_mutual(cs),
    ensures
        link_spec(cs).len() == cs.len(),
        ids_are_positions(link_spec(cs)),
        links_mutual(link_spec(cs)),
{
    let p = |c: ChangeView| c.kind is Extracted;
    let f = cs.filter(p);
    let es = extraction_sources(cs);
    assert forall|k: int| 0 <= k < es.len() implies (#[trigger] es[k]).0 < cs.len() by {
        assert(es[k].0 == f[k].id);
        assert(f.contains(f[k]));
        cs.lemma_filter_contains_rev(p, f[k]);
        let t = choose|t: int| 0 <= t < cs.len() && cs[t] == f[k];
        assert(cs[t].id == t);
    }
    lemma_link_all(cs, es);
}

fn find_source(changes: &Vec<SemanticChange>, eid: usize, from: &String) -> (r: usize)
    ensures
        r as int == first_source(changes_view(changes@), eid, from@, 0),
{
    let ghost cv = changes_view(changes@);
    let mut k: usize = 0;
    while k < changes.len()
        invariant
            k <= changes.len(),
            cv == changes_view(changes@),
            first_source(cv, eid, from@, 0) == first_source(cv, eid, from@, k as int),
        decreases changes.len() - k,
    {
        let c = &changes[k];
        assert(cv[k as int] == c@);
        if c.id != eid {
            match &c.old_symbol {
                Some(s) => {
                    if s.name == *from {
                        return k;
                    }
                },
                None => {},
            }
        }
        k = k + 1;
    }
    k
}

fn find_id(changes: &Vec<SemanticChange>, id: usize) -> (r: usize)
    ensures
        r as int == first_with_id(changes_view(changes@), id, 0),
{
    let ghost cv = changes_view(changes@);
    let mut k: usize = 0;
    while k < changes.len()
        invariant
            k <= changes.len(),
            cv == changes_view(changes@),
            first_with_id(cv, id, 0) == first_with_id(cv, id, k as int),
        decreases changes.len() - k,
    {
        if changes[k].id == id {
            return k;
        }
        k = k + 1;
    }
    k
}

fn add_related(changes: &mut Vec<SemanticChange>, id: usize, x: usize)
    ensures
        changes_view(final(changes)@) == relate(changes_view(old(changes)@), id, x),
{
    let a = find_id(changes, id);
    if a < changes.len() {
        let ghost before = changes@;
        changes[a].related_changes.push(x);
        proof {
            assert(changes_view(changes@) =~= changes_view(before).update(
                a as int,
                with_related(before[a as int]@, x),
            ));
        }
    }
}

/// Links each extraction with the change of the symbol it was extracted
/// from (the first change, other than itself, whose old symbol has that
/// name), recording each in the other's related changes.
pub fn link_related_changes(changes: &mut Vec<SemanticChange>)
    ensures
        changes_view(final(changes)@) == link_spec(changes_view(old(changes)@)),
{
    let ghost cv0 = changes_view(changes@);
    let mut sources: Vec<(usize, String)> = Vec::new();
    let mut i: usize = 0;
    while i < changes.len()
        invariant
            i <= changes.len(),
            cv0 == changes_view(changes@),
            sources@.map_values(|e: (usize, String)| (e.0, e.1@)) == extraction_sources(
                cv0.take(i as int),
            ),
        decreases changes.len() - i,
    {
        let ghost prev = sources@;
        match &changes[i].kind {
            ChangeKind::Extracted { from_symbol, .. } => {
                sources.push((changes[i].id, from_symbol.clone()));
            },
            _ => {},
        }
        proof {
            let a = cv0.take(i + 1);
            let b = cv0.take(i as int);
            assert(a.drop_last() =~= b);
            assert(a.last() == changes@[i as int]@);
            reveal_with_fuel(Seq::filter, 1);
            let f = |c: ChangeView| c.kind is Extracted;
            let g = |c: ChangeView| (c.id, extracted_from(c.kind));
            if changes@[i as int]@.kind is Extracted {
                assert(a.filter(f) =~= b.filter(f).push(a.last()));
                assert(a.filter(f).map_values(g) =~= b.filter(f).map_values(g).push(g(a.last())));
                assert(sources@.map_values(|e: (usize, String)| (e.0, e.1@)) =~= prev.map_values(
                    |e: (usize, String)| (e.0, e.1@),
                ).push(g(a.last())));
            } else {
                assert(a.filter(f) =~= b.filter(f));
            }
        }
        i = i + 1;
    }
    proof {
        assert(cv0.take(changes.len() as int) =~= cv0);
    }
    let ghost es = extraction_sources(cv0);
    let mut j: usize = 0;
    while j < sources.len()
        invariant
            j <= sources.len(),
            es == sources@.map_values(|e: (usize, String)| (e.0, e.1@)),
            changes_view(changes@) == link_all(cv0, es.take(j as int)),
        decreases sources.len() - j,
    {
        let eid = sources[j].0;
        let s = find_source(changes, eid, &sources[j].1);
        proof {
            assert(es.take(j + 1).drop_last() =~= es.take(j as int));
            assert(es[j as int] == (eid, sources@[j as int].1@));
        }
        if s < changes.len() {
            let sid = changes[s].id;
            add_related(changes, eid, sid);
            add_related(changes, sid, eid);
        }
        j = j + 1;
    }
    proof {
        assert(es.take(sources.len() as int) =~= es);
    }
}

} // verus!
