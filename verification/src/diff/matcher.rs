//! Matching the symbols of the old and the new version of one file.
//!
//! Three phases, each on what the previous ones left unmatched: equal
//! qualified names; equal bodies (of the same kind); then a greedy
//! best-first assignment over name-and-body similarity scores.
use vstd::prelude::*;

use crate::ast::symbol::{
    body_similarity_spec, hash_eq, lemma_similarity_small, name_similarity_spec, Symbol,
    SymbolView, COMPARABLE_BYTES,
};
use crate::rank::{all_wf, lemma_sort_desc_all, lemma_sort_desc_len, sort_by_score_desc, sort_desc};
use crate::ratio::{lemma_mul_bound, Ratio};

verus! {

/// Result of matching symbols within a single file.
#[derive(Debug)]
pub struct MatchResult {
    /// Matched pairs: old index, new index, confidence.
    pub matched: Vec<(usize, usize, Ratio)>,
    /// Indices of unmatched old symbols, ascending.
    pub unmatched_old: Vec<usize>,
    /// Indices of unmatched new symbols, ascending.
    pub unmatched_new: Vec<usize>,
}

pub struct MatchView {
    pub matched: Seq<(usize, usize, Ratio)>,
    pub unmatched_old: Seq<usize>,
    pub unmatched_new: Seq<usize>,
}

impl View for MatchResult {
    type V = MatchView;

    open spec fn view(&self) -> MatchView {
        MatchView {
            matched: self.matched@,
            unmatched_old: self.unmatched_old@,
            unmatched_new: self.unmatched_new@,
        }
    }
}

pub open spec fn syms_view(s: Seq<Symbol>) -> Seq<SymbolView> {
    s.map_values(|x: Symbol| x@)
}

/// What the matching has decided so far.
pub struct MatchState {
    pub used_old: Seq<bool>,
    pub used_new: Seq<bool>,
    pub matched: Seq<(usize, usize, Ratio)>,
}

pub open spec fn initial_state(n_old: nat, n_new: nat) -> MatchState {
    MatchState {
        used_old: Seq::new(n_old, |i: int| false),
        used_new: Seq::new(n_new, |i: int| false),
        matched: Seq::empty(),
    }
}

/// Records the pair `(oi, ni)`.
pub open spec fn take_pair(st: MatchState, oi: int, ni: int, conf: Ratio) -> MatchState {
    MatchState {
        used_old: st.used_old.update(oi, true),
        used_new: st.used_new.update(ni, true),
        matched: st.matched.push((oi as usize, ni as usize, conf)),
    }
}

/// First unused new symbol from `k` on with qualified name `q`, or the
/// number of new symbols when there is none.
pub open spec fn first_by_qname(new: Seq<SymbolView>, used: Seq<bool>, q: Seq<char>, k: int) -> int
    decreases new.len() - k,
{
    if k < 0 || k >= new.len() {
        new.len() as int
    } else if !used[k] && new[k].qualified_name == q {
        k
    } else {
        first_by_qname(new, used, q, k + 1)
    }
}

/// First unused new symbol from `k` on with body hash `h` and kind of `o`.
pub open spec fn first_by_body(new: Seq<SymbolView>, used: Seq<bool>, o: SymbolView, k: int) -> int
    decreases new.len() - k,
{
    if k < 0 || k >= new.len() {
        new.len() as int
    } else if !used[k] && new[k].body_hash == o.body_hash && new[k].kind == o.kind {
        k
    } else {
        first_by_body(new, used, o, k + 1)
    }
}

/// Phase 1 on old symbol `oi`: the first free new symbol with the same
/// qualified name; confidence 1 when the bodies are identical, else 19/20.
pub open spec fn step_qname(old: Seq<SymbolView>, new: Seq<SymbolView>, st: MatchState, oi: int) -> MatchState {
    let ni = first_by_qname(new, st.used_new, old[oi].qualified_name, 0);
    if ni < new.len() && !st.used_old[oi] {
        take_pair(
            st,
            oi,
            ni,
            if old[oi].body_hash == new[ni].body_hash {
                Ratio { num: 1, den: 1 }
            } else {
                Ratio { num: 19, den: 20 }
            },
        )
    } else {
        st
    }
}

pub open spec fn phase_qname(old: Seq<SymbolView>, new: Seq<SymbolView>, i: int) -> MatchState
    decreases i,
{
    if i <= 0 {
        initial_state(old.len(), new.len())
    } else {
        step_qname(old, new, phase_qname(old, new, i - 1), i - 1)
    }
}

/// Phase 2 on old symbol `oi` if still free: the first free new symbol
/// with the same body hash and kind; confidence 9/10.
pub open spec fn step_body(old: Seq<SymbolView>, new: Seq<SymbolView>, st: MatchState, oi: int) -> MatchState {
    if st.used_old[oi] {
        st
    } else {
        let ni = first_by_body(new, st.used_new, old[oi], 0);
        if ni < new.len() {
            take_pair(st, oi, ni, Ratio { num: 9, den: 10 })
        } else {
            st
        }
    }
}

pub open spec fn phase_body(old: Seq<SymbolView>, new: Seq<SymbolView>, i: int) -> MatchState
    decreases i,
{
    if i <= 0 {
        phase_qname(old, new, old.len() as int)
    } else {
        step_body(old, new, phase_body(old, new, i - 1), i - 1)
    }
}

/// `2/5 * name + 3/5 * body`, exactly.
pub open spec fn combined(name: Ratio, body: Ratio) -> Ratio {
    Ratio {
        num: (4 * name.num * body.den + 6 * body.num * name.den) as u64,
        den: (10 * name.den * body.den) as u64,
    }
}

pub open spec fn pair_score(o: SymbolView, n: SymbolView) -> Ratio {
    combined(name_similarity_spec(o, n), body_similarity_spec(o, n))
}

/// Whether `(oi, ni)` is a phase-3 candidate: both free, same kind, and a
/// combined score above one half.
pub open spec fn is_candidate(old: Seq<SymbolView>, new: Seq<SymbolView>, st: MatchState, oi: int, ni: int) -> bool {
    !st.used_old[oi] && !st.used_new[ni] && old[oi].kind == new[ni].kind && pair_score(
        old[oi],
        new[ni],
    ).above(1, 2)
}

/// Candidates of old symbol `oi` among the first `k` new symbols.
pub open spec fn candidate_row(
    old: Seq<SymbolView>,
    new: Seq<SymbolView>,
    st: MatchState,
    oi: int,
    k: int,
) -> Seq<(Ratio, (usize, usize))>
    decreases k,
{
    if k <= 0 {
        Seq::empty()
    } else {
        let r = candidate_row(old, new, st, oi, k - 1);
        if is_candidate(old, new, st, oi, k - 1) {
            r.push((pair_score(old[oi], new[k - 1]), (oi as usize, (k - 1) as usize)))
        } else {
            r
        }
    }
}

/// Candidates of the first `i` old symbols, row by row.
pub open spec fn candidate_list(old: Seq<SymbolView>, new: Seq<SymbolView>, st: MatchState, i: int) -> Seq<
    (Ratio, (usize, usize)),
>
    decreases i,
{
    if i <= 0 {
        Seq::empty()
    } else {
        candidate_list(old, new, st, i - 1) + candidate_row(old, new, st, i - 1, new.len() as int)
    }
}

/// Greedy assignment: each candidate, best first, is taken when both its
/// symbols are still free.
pub open spec fn assign(st: MatchState, sorted: Seq<(Ratio, (usize, usize))>) -> MatchState
    decreases sorted.len(),
{
    if sorted.len() == 0 {
        st
    } else {
        let s = assign(st, sorted.drop_last());
        let c = sorted.last();
        if !s.used_old[c.1.0 as int] && !s.used_new[c.1.1 as int] {
            take_pair(s, c.1.0 as int, c.1.1 as int, c.0)
        } else {
            s
        }
    }
}

/// Indices below `k` whose flag is unset, ascending.
pub open spec fn unused_upto(used: Seq<bool>, k: int) -> Seq<usize>
    decreases k,
{
    if k <= 0 {
        Seq::empty()
    } else if !used[k - 1] {
        unused_upto(used, k - 1).push((k - 1) as usize)
    } else {
        unused_upto(used, k - 1)
    }
}

pub open spec fn final_state(old: Seq<SymbolView>, new: Seq<SymbolView>) -> MatchState {
    let st = phase_body(old, new, old.len() as int);
    assign(st, sort_desc(candidate_list(old, new, st, old.len() as int)))
}

/// The matching of two symbol lists.
pub open spec fn match_spec(old: Seq<SymbolView>, new: Seq<SymbolView>) -> MatchView {
    let st = final_state(old, new);
    MatchView {
        matched: st.matched,
        unmatched_old: unused_upto(st.used_old, old.len() as int),
        unmatched_new: unused_upto(st.used_new, new.len() as int),
    }
}

// ------------------------------------------------------------ consistency

/// The flags mark exactly the indices that occur in the pairs, and no
/// index occurs in two pairs.
pub open spec fn consistent(st: MatchState, n_old: nat, n_new: nat) -> bool {
    &&& st.used_old.len() == n_old
    &&& st.used_new.len() == n_new
    &&& forall|k: int|
        0 <= k < st.matched.len() ==> {
            &&& (#[trigger] st.matched[k]).0 < n_old
            &&& st.matched[k].1 < n_new
            &&& st.used_old[st.matched[k].0 as int]
            &&& st.used_new[st.matched[k].1 as int]
        }
    &&& forall|i: int|
        0 <= i < n_old && #[trigger] st.used_old[i] ==> exists|k: int|
            0 <= k < st.matched.len() && st.matched[k].0 == i
    &&& forall|i: int|
        0 <= i < n_new && #[trigger] st.used_new[i] ==> exists|k: int|
            0 <= k < st.matched.len() && st.matched[k].1 == i
    &&& forall|a: int, b: int|
        0 <= a < b < st.matched.len() ==> (#[trigger] st.matched[a]).0 != (
        #[trigger] st.matched[b]).0 && st.matched[a].1 != st.matched[b].1
}

proof fn lemma_initial_consistent(n_old: nat, n_new: nat)
    ensures
        consistent(initial_state(n_old, n_new), n_old, n_new),
{
}

proof fn lemma_take_pair(st: MatchState, n_old: nat, n_new: nat, oi: int, ni: int, conf: Ratio)
    requires
        consistent(st, n_old, n_new),
        n_old <= usize::MAX,
        n_new <= usize::MAX,
        0 <= oi < n_old,
        0 <= ni < n_new,
        !st.used_old[oi],
        !st.used_new[ni],
    ensures
        consistent(take_pair(st, oi, ni, conf), n_old, n_new),
{
    let t = take_pair(st, oi, ni, conf);
    let m = st.matched.len() as int;
    assert forall|k: int| 0 <= k < t.matched.len() implies {
        &&& (#[trigger] t.matched[k]).0 < n_old
        &&& t.matched[k].1 < n_new
        &&& t.used_old[t.matched[k].0 as int]
        &&& t.used_new[t.matched[k].1 as int]
    } by {
        if k < m {
            assert(t.matched[k] == st.matched[k]);
        }
    }
    assert forall|i: int| 0 <= i < n_old && #[trigger] t.used_old[i] implies exists|k: int|
        0 <= k < t.matched.len() && t.matched[k].0 == i by {
        if i == oi {
            assert(t.matched[m].0 == i);
        } else {
            assert(st.used_old[i]);
            let k = choose|k: int| 0 <= k < st.matched.len() && st.matched[k].0 == i;
            assert(t.matched[k] == st.matched[k]);
        }
    }
    assert forall|i: int| 0 <= i < n_new && #[trigger] t.used_new[i] implies exists|k: int|
        0 <= k < t.matched.len() && t.matched[k].1 == i by {
        if i == ni {
            assert(t.matched[m].1 == i);
        } else {
            assert(st.used_new[i]);
            let k = choose|k: int| 0 <= k < st.matched.len() && st.matched[k].1 == i;
            assert(t.matched[k] == st.matched[k]);
        }
    }
    assert forall|a: int, b: int| 0 <= a < b < t.matched.len() implies (
    #[trigger] t.matched[a]).0 != (#[trigger] t.matched[b]).0 && t.matched[a].1
        != t.matched[b].1 by {
        assert(t.matched[a] == st.matched[a]);
        if b < m {
            assert(t.matched[b] == st.matched[b]);
        } else {
            assert(st.used_old[st.matched[a].0 as int]);
            assert(st.used_new[st.matched[a].1 as int]);
        }
    }
}

proof fn lemma_first_by_qname(new: Seq<SymbolView>, used: Seq<bool>, q: Seq<char>, k: int)
    requires
        0 <= k <= new.len(),
        used.len() == new.len(),
    ensures
        k <= first_by_qname(new, used, q, k) <= new.len(),
        first_by_qname(new, used, q, k) < new.len() ==> !used[first_by_qname(new, used, q, k)]
            && new[first_by_qname(new, used, q, k)].qualified_name == q,
    decreases new.len() - k,
{
    if k < new.len() && !(!used[k] && new[k].qualified_name == q) {
        lemma_first_by_qname(new, used, q, k + 1);
    }
}

proof fn lemma_first_by_body(new: Seq<SymbolView>, used: Seq<bool>, o: SymbolView, k: int)
    requires
        0 <= k <= new.len(),
        used.len() == new.len(),
    ensures
        k <= first_by_body(new, used, o, k) <= new.len(),
        first_by_body(new, used, o, k) < new.len() ==> !used[first_by_body(new, used, o, k)]
            && new[first_by_body(new, used, o, k)].body_hash == o.body_hash
            && new[first_by_body(new, used, o, k)].kind == o.kind,
    decreases new.len() - k,
{
    if k < new.len() && !(!used[k] && new[k].body_hash == o.body_hash && new[k].kind == o.kind) {
        lemma_first_by_body(new, used, o, k + 1);
    }
}

proof fn lemma_phase_qname(old: Seq<SymbolView>, new: Seq<SymbolView>, i: int)
    requires
        0 <= i <= old.len(),
        old.len() <= usize::MAX,
        new.len() <= usize::MAX,
    ensures
        consistent(phase_qname(old, new, i), old.len(), new.len()),
    decreases i,
{
    if i <= 0 {
        lemma_initial_consistent(old.len(), new.len());
    } else {
        lemma_phase_qname(old, new, i - 1);
        let st = phase_qname(old, new, i - 1);
        lemma_first_by_qname(new, st.used_new, old[i - 1].qualified_name, 0);
        let ni = first_by_qname(new, st.used_new, old[i - 1].qualified_name, 0);
        if ni < new.len() && !st.used_old[i - 1] {
            lemma_take_pair(
                st,
                old.len(),
                new.len(),
                i - 1,
                ni,
                if old[i - 1].body_hash == new[ni].body_hash {
                    Ratio { num: 1, den: 1 }
                } else {
                    Ratio { num: 19, den: 20 }
                },
            );
        }
    }
}

proof fn lemma_phase_body(old: Seq<SymbolView>, new: Seq<SymbolView>, i: int)
    requires
        0 <= i <= old.len(),
        old.len() <= usize::MAX,
        new.len() <= usize::MAX,
    ensures
        consistent(phase_body(old, new, i), old.len(), new.len()),
    decreases i,
{
    if i <= 0 {
        lemma_phase_qname(old, new, old.len() as int);
    } else {
        lemma_phase_body(old, new, i - 1);
        let st = phase_body(old, new, i - 1);
        if !st.used_old[i - 1] {
            lemma_first_by_body(new, st.used_new, old[i - 1], 0);
            let ni = first_by_body(new, st.used_new, old[i - 1], 0);
            if ni < new.len() {
                lemma_take_pair(st, old.len(), new.len(), i - 1, ni, Ratio { num: 9, den: 10 });
            }
        }
    }
}

/// Every candidate names an old and a new index in range.
pub open spec fn in_range(c: Seq<(Ratio, (usize, usize))>, n_old: nat, n_new: nat) -> bool {
    forall|k: int| 0 <= k < c.len() ==> (#[trigger] c[k]).1.0 < n_old && c[k].1.1 < n_new
}

proof fn lemma_assign(st: MatchState, sorted: Seq<(Ratio, (usize, usize))>, n_old: nat, n_new: nat)
    requires
        consistent(st, n_old, n_new),
        n_old <= usize::MAX,
        n_new <= usize::MAX,
        in_range(sorted, n_old, n_new),
    ensures
        consistent(assign(st, sorted), n_old, n_new),
    decreases sorted.len(),
{
    if sorted.len() > 0 {
        let init = sorted.drop_last();
        assert forall|k: int| 0 <= k < init.len() implies (#[trigger] init[k]).1.0 < n_old
            && init[k].1.1 < n_new by {
            assert(init[k] == sorted[k]);
        }
        lemma_assign(st, init, n_old, n_new);
        let s = assign(st, init);
        let c = sorted.last();
        assert(c == sorted[sorted.len() - 1]);
        if !s.used_old[c.1.0 as int] && !s.used_new[c.1.1 as int] {
            lemma_take_pair(s, n_old, n_new, c.1.0 as int, c.1.1 as int, c.0);
        }
    }
}

proof fn lemma_row_in_range(old: Seq<SymbolView>, new: Seq<SymbolView>, st: MatchState, oi: int, k: int)
    requires
        0 <= oi < old.len(),
        0 <= k <= new.len(),
    ensures
        in_range(candidate_row(old, new, st, oi, k), old.len(), new.len()),
    decreases k,
{
    if k > 0 {
        lemma_row_in_range(old, new, st, oi, k - 1);
    }
}

proof fn lemma_list_in_range(old: Seq<SymbolView>, new: Seq<SymbolView>, st: MatchState, i: int)
    requires
        0 <= i <= old.len(),
    ensures
        in_range(candidate_list(old, new, st, i), old.len(), new.len()),
    decreases i,
{
    if i > 0 {
        lemma_list_in_range(old, new, st, i - 1);
        lemma_row_in_range(old, new, st, i - 1, new.len() as int);
        let a = candidate_list(old, new, st, i - 1);
        let b = candidate_row(old, new, st, i - 1, new.len() as int);
        assert forall|k: int| 0 <= k < (a + b).len() implies (#[trigger] (a + b)[k]).1.0
            < old.len() && (a + b)[k].1.1 < new.len() by {
            if k < a.len() {
                assert((a + b)[k] == a[k]);
            } else {
                assert((a + b)[k] == b[k - a.len()]);
            }
        }
    }
}

proof fn lemma_sorted_in_range(c: Seq<(Ratio, (usize, usize))>, n_old: nat, n_new: nat)
    requires
        in_range(c, n_old, n_new),
    ensures
        in_range(sort_desc(c), n_old, n_new),
{
    assert forall|k: int| 0 <= k < c.len() implies (|x: (Ratio, (usize, usize))|
        x.1.0 < n_old && x.1.1 < n_new)(#[trigger] c[k]) by {}
    lemma_sort_desc_all(c, |x: (Ratio, (usize, usize))| x.1.0 < n_old && x.1.1 < n_new);
}

proof fn lemma_final_consistent(old: Seq<SymbolView>, new: Seq<SymbolView>)
    requires
        old.len() <= usize::MAX,
        new.len() <= usize::MAX,
    ensures
        consistent(final_state(old, new), old.len(), new.len()),
{
    let st = phase_body(old, new, old.len() as int);
    lemma_phase_body(old, new, old.len() as int);
    lemma_list_in_range(old, new, st, old.len() as int);
    let c = candidate_list(old, new, st, old.len() as int);
    lemma_sorted_in_range(c, old.len(), new.len());
    lemma_assign(st, sort_desc(c), old.len(), new.len());
}

proof fn lemma_unused_upto(used: Seq<bool>, k: int)
    requires
        0 <= k <= used.len(),
        used.len() <= usize::MAX,
    ensures
        forall|j: int|
            0 <= j < unused_upto(used, k).len() ==> (#[trigger] unused_upto(used, k)[j]) < k
                && !used[unused_upto(used, k)[j] as int],
        forall|i: int| 0 <= i < k && !used[i] ==> unused_upto(used, k).contains(i as usize),
        forall|a: int, b: int|
            0 <= a < b < unused_upto(used, k).len() ==> (#[trigger] unused_upto(used, k)[a]) < (
            #[trigger] unused_upto(used, k)[b]),
    decreases k,
{
    if k > 0 {
        lemma_unused_upto(used, k - 1);
        let p = unused_upto(used, k - 1);
        if !used[k - 1] {
            let q = p.push((k - 1) as usize);
            assert forall|i: int| 0 <= i < k && !used[i] implies q.contains(i as usize) by {
                if i == k - 1 {
                    assert(q[p.len() as int] == (k - 1) as usize);
                } else {
                    let j = choose|j: int| 0 <= j < p.len() && p[j] == i as usize;
                    assert(q[j] == p[j]);
                }
            }
        }
    }
}

/// Some pair has old index `i`.
pub open spec fn pairs_have_old(pairs: Seq<(usize, usize, Ratio)>, i: int) -> bool {
    exists|k: int| 0 <= k < pairs.len() && (#[trigger] pairs[k]).0 == i
}

/// Some pair has new index `i`.
pub open spec fn pairs_have_new(pairs: Seq<(usize, usize, Ratio)>, i: int) -> bool {
    exists|k: int| 0 <= k < pairs.len() && (#[trigger] pairs[k]).1 == i
}

/// Every old index is either in exactly one matched pair or listed as
/// unmatched, never both, and likewise every new index; the unmatched lists
/// are ascending.
pub proof fn lemma_match_partition(old: Seq<SymbolView>, new: Seq<SymbolView>)
    requires
        old.len() <= usize::MAX,
        new.len() <= usize::MAX,
    ensures
        ({
            let m = match_spec(old, new);
            &&& forall|k: int|
                0 <= k < m.matched.len() ==> (#[trigger] m.matched[k]).0 < old.len()
                    && m.matched[k].1 < new.len()
            &&& forall|a: int, b: int|
                0 <= a < b < m.matched.len() ==> (#[trigger] m.matched[a]).0 != (
                #[trigger] m.matched[b]).0 && m.matched[a].1 != m.matched[b].1
            &&& forall|i: int|
                0 <= i < old.len() ==> (#[trigger] pairs_have_old(m.matched, i)
                    <==> !m.unmatched_old.contains(i as usize))
            &&& forall|i: int|
                0 <= i < new.len() ==> (#[trigger] pairs_have_new(m.matched, i)
                    <==> !m.unmatched_new.contains(i as usize))
            &&& forall|j: int| 0 <= j < m.unmatched_old.len() ==> (#[trigger] m.unmatched_old[j]) < old.len()
            &&& forall|j: int| 0 <= j < m.unmatched_new.len() ==> (#[trigger] m.unmatched_new[j]) < new.len()
            &&& forall|a: int, b: int|
                0 <= a < b < m.unmatched_old.len() ==> (#[trigger] m.unmatched_old[a]) < (
                #[trigger] m.unmatched_old[b])
            &&& forall|a: int, b: int|
                0 <= a < b < m.unmatched_new.len() ==> (#[trigger] m.unmatched_new[a]) < (
                #[trigger] m.unmatched_new[b])
        }),
{
    let st = final_state(old, new);
    lemma_final_consistent(old, new);
    lemma_unused_upto(st.used_old, old.len() as int);
    lemma_unused_upto(st.used_new, new.len() as int);
    let m = match_spec(old, new);
    assert forall|i: int| 0 <= i < old.len() implies (#[trigger] pairs_have_old(m.matched, i)
        <==> !m.unmatched_old.contains(i as usize)) by {
        if pairs_have_old(m.matched, i) {
            let k = choose|k: int| 0 <= k < m.matched.len() && (#[trigger] m.matched[k]).0 == i;
            assert(st.used_old[i]);
            if m.unmatched_old.contains(i as usize) {
                let j = choose|j: int| 0 <= j < m.unmatched_old.len() && m.unmatched_old[j] == i as usize;
                assert(!st.used_old[m.unmatched_old[j] as int]);
            }
        } else {
            if !m.unmatched_old.contains(i as usize) {
                assert(st.used_old[i]);
            }
        }
    }
    assert forall|i: int| 0 <= i < new.len() implies (#[trigger] pairs_have_new(m.matched, i)
        <==> !m.unmatched_new.contains(i as usize)) by {
        if pairs_have_new(m.matched, i) {
            let k = choose|k: int| 0 <= k < m.matched.len() && (#[trigger] m.matched[k]).1 == i;
            assert(st.used_new[i]);
            if m.unmatched_new.contains(i as usize) {
                let j = choose|j: int| 0 <= j < m.unmatched_new.len() && m.unmatched_new[j] == i as usize;
                assert(!st.used_new[m.unmatched_new[j] as int]);
            }
        } else {
            if !m.unmatched_new.contains(i as usize) {
                assert(st.used_new[i]);
            }
        }
    }
}

// ------------------------------------------------------- why pairs match

/// A confidence between zero and one, with a positive denominator.
pub open spec fn unit_confidence(c: Ratio) -> bool {
    c.wf() && c.num <= c.den
}

/// Why `old[p.0]` and `new[p.1]` were paired, with the confidence that goes
/// with each reason: the same qualified name (1 when the bodies are
/// identical, else 19/20); the same body and kind (9/10); or the same kind
/// and a combined name-and-body score above one half, which is then the
/// confidence.
pub open spec fn pair_justified(old: Seq<SymbolView>, new: Seq<SymbolView>, p: (usize, usize, Ratio)) -> bool {
    let o = old[p.0 as int];
    let n = new[p.1 as int];
    &&& p.0 < old.len()
    &&& p.1 < new.len()
    &&& {
        ||| o.qualified_name == n.qualified_name && p.2 == (if o.body_hash == n.body_hash {
            Ratio { num: 1, den: 1 }
        } else {
            Ratio { num: 19, den: 20 }
        })
        ||| o.body_hash == n.body_hash && o.kind == n.kind && p.2 == Ratio { num: 9, den: 10 }
        ||| o.kind == n.kind && p.2 == pair_score(o, n) && p.2.above(1, 2)
    }
}

pub open spec fn all_justified(old: Seq<SymbolView>, new: Seq<SymbolView>, m: Seq<(usize, usize, Ratio)>) -> bool {
    forall|k: int| 0 <= k < m.len() ==> #[trigger] pair_justified(old, new, m[k])
}

/// A phase-3 candidate: indices in range, the same kind, and its score.
pub open spec fn candidate_ok(old: Seq<SymbolView>, new: Seq<SymbolView>, c: (Ratio, (usize, usize))) -> bool {
    &&& c.1.0 < old.len()
    &&& c.1.1 < new.len()
    &&& old[c.1.0 as int].kind == new[c.1.1 as int].kind
    &&& c.0 == pair_score(old[c.1.0 as int], new[c.1.1 as int])
    &&& c.0.above(1, 2)
}

proof fn lemma_take_justified(
    old: Seq<SymbolView>,
    new: Seq<SymbolView>,
    st: MatchState,
    oi: int,
    ni: int,
    conf: Ratio,
)
    requires
        all_justified(old, new, st.matched),
        pair_justified(old, new, (oi as usize, ni as usize, conf)),
    ensures
        all_justified(old, new, take_pair(st, oi, ni, conf).matched),
{
    let t = take_pair(st, oi, ni, conf).matched;
    assert forall|k: int| 0 <= k < t.len() implies #[trigger] pair_justified(old, new, t[k]) by {
        if k < st.matched.len() {
            assert(t[k] == st.matched[k]);
        }
    }
}

proof fn lemma_qname_justified(old: Seq<SymbolView>, new: Seq<SymbolView>, i: int)
    requires
        0 <= i <= old.len(),
        old.len() <= usize::MAX,
        new.len() <= usize::MAX,
    ensures
        all_justified(old, new, phase_qname(old, new, i).matched),
    decreases i,
{
    if i > 0 {
        lemma_qname_justified(old, new, i - 1);
        lemma_phase_qname(old, new, i - 1);
        let st = phase_qname(old, new, i - 1);
        lemma_first_by_qname(new, st.used_new, old[i - 1].qualified_name, 0);
        let ni = first_by_qname(new, st.used_new, old[i - 1].qualified_name, 0);
        if ni < new.len() && !st.used_old[i - 1] {
            let conf = if old[i - 1].body_hash == new[ni].body_hash {
                Ratio { num: 1, den: 1 }
            } else {
                Ratio { num: 19, den: 20 }
            };
            lemma_take_justified(old, new, st, i - 1, ni, conf);
        }
    }
}

proof fn lemma_body_justified(old: Seq<SymbolView>, new: Seq<SymbolView>, i: int)
    requires
        0 <= i <= old.len(),
        old.len() <= usize::MAX,
        new.len() <= usize::MAX,
    ensures
        all_justified(old, new, phase_body(old, new, i).matched),
    decreases i,
{
    if i <= 0 {
        lemma_qname_justified(old, new, old.len() as int);
    } else {
        lemma_body_justified(old, new, i - 1);
        lemma_phase_body(old, new, i - 1);
        let st = phase_body(old, new, i - 1);
        if !st.used_old[i - 1] {
            lemma_first_by_body(new, st.used_new, old[i - 1], 0);
            let ni = first_by_body(new, st.used_new, old[i - 1], 0);
            if ni < new.len() {
                lemma_take_justified(old, new, st, i - 1, ni, Ratio { num: 9, den: 10 });
            }
        }
    }
}

proof fn lemma_row_ok(old: Seq<SymbolView>, new: Seq<SymbolView>, st: MatchState, oi: int, k: int)
    requires
        0 <= oi < old.len(),
        0 <= k <= new.len(),
        old.len() <= usize::MAX,
        new.len() <= usize::MAX,
    ensures
        forall|j: int|
            0 <= j < candidate_row(old, new, st, oi, k).len() ==> #[trigger] candidate_ok(
                old,
                new,
                candidate_row(old, new, st, oi, k)[j],
            ),
    decreases k,
{
    if k > 0 {
        lemma_row_ok(old, new, st, oi, k - 1);
        let r = candidate_row(old, new, st, oi, k - 1);
        let s = candidate_row(old, new, st, oi, k);
        assert forall|j: int| 0 <= j < s.len() implies #[trigger] candidate_ok(old, new, s[j]) by {
            if j < r.len() {
                assert(s[j] == r[j]);
            }
        }
    }
}

proof fn lemma_list_ok(old: Seq<SymbolView>, new: Seq<SymbolView>, st: MatchState, i: int)
    requires
        0 <= i <= old.len(),
        old.len() <= usize::MAX,
        new.len() <= usize::MAX,
    ensures
        forall|j: int|
            0 <= j < candidate_list(old, new, st, i).len() ==> #[trigger] candidate_ok(
                old,
                new,
                candidate_list(old, new, st, i)[j],
            ),
    decreases i,
{
    if i > 0 {
        lemma_list_ok(old, new, st, i - 1);
        lemma_row_ok(old, new, st, i - 1, new.len() as int);
        let a = candidate_list(old, new, st, i - 1);
        let b = candidate_row(old, new, st, i - 1, new.len() as int);
        assert forall|j: int| 0 <= j < (a + b).len() implies #[trigger] candidate_ok(old, new, (a + b)[j]) by {
            if j < a.len() {
                assert((a + b)[j] == a[j]);
            } else {
                assert((a + b)[j] == b[j - a.len()]);
            }
        }
    }
}

proof fn lemma_assign_justified(
    old: Seq<SymbolView>,
    new: Seq<SymbolView>,
    st: MatchState,
    sorted: Seq<(Ratio, (usize, usize))>,
)
    requires
        all_justified(old, new, st.matched),
        forall|j: int| 0 <= j < sorted.len() ==> #[trigger] candidate_ok(old, new, sorted[j]),
    ensures
        all_justified(old, new, assign(st, sorted).matched),
    decreases sorted.len(),
{
    if sorted.len() > 0 {
        let init = sorted.drop_last();
        assert forall|j: int| 0 <= j < init.len() implies #[trigger] candidate_ok(old, new, init[j]) by {
            assert(init[j] == sorted[j]);
        }
        lemma_assign_justified(old, new, st, init);
        let s = assign(st, init);
        let c = sorted.last();
        assert(candidate_ok(old, new, sorted[sorted.len() - 1]));
        if !s.used_old[c.1.0 as int] && !s.used_new[c.1.1 as int] {
            lemma_take_justified(old, new, s, c.1.0 as int, c.1.1 as int, c.0);
        }
    }
}

proof fn lemma_pair_score_unit(o: SymbolView, n: SymbolView)
    requires
        o.comparable(),
        n.comparable(),
    ensures
        unit_confidence(pair_score(o, n)),
{
    lemma_similarity_small(o, n);
    let ns = name_similarity_spec(o, n);
    let bs = body_similarity_spec(o, n);
    let b: int = COMPARABLE_BYTES as int;
    let x: int = ns.num * bs.den;
    let y: int = bs.num * ns.den;
    let d: int = ns.den * bs.den;
    assert(0 < d <= b * b) by (nonlinear_arith)
        requires
            0 < ns.den <= b,
            0 < bs.den <= b,
            d == ns.den * bs.den,
    ;
    assert(0 <= x <= d) by (nonlinear_arith)
        requires
            0 <= ns.num <= ns.den,
            0 <= bs.den,
            x == ns.num * bs.den,
            d == ns.den * bs.den,
    ;
    assert(0 <= y <= d) by (nonlinear_arith)
        requires
            0 <= bs.num <= bs.den,
            0 <= ns.den,
            y == bs.num * ns.den,
            d == ns.den * bs.den,
    ;
    assert(4 * ns.num * bs.den == 4 * x) by (nonlinear_arith)
        requires
            x == ns.num * bs.den,
    ;
    assert(6 * bs.num * ns.den == 6 * y) by (nonlinear_arith)
        requires
            y == bs.num * ns.den,
    ;
    assert(10 * ns.den * bs.den == 10 * d) by (nonlinear_arith)
        requires
            d == ns.den * bs.den,
    ;
}

/// Every pair that the matching returns has a reason from one of its three
/// phases: the same qualified name, with confidence 1 when the bodies are
/// identical and 19/20 otherwise; the same body and kind, with confidence
/// 9/10; or the same kind and a combined name-and-body score above one
/// half, which is the confidence. Every confidence lies between zero and one.
pub proof fn lemma_match_confidence(old: Seq<SymbolView>, new: Seq<SymbolView>)
    requires
        old.len() <= usize::MAX,
        new.len() <= usize::MAX,
        forall|i: int| 0 <= i < old.len() ==> (#[trigger] old[i]).comparable(),
        forall|i: int| 0 <= i < new.len() ==> (#[trigger] new[i]).comparable(),
    ensures
        forall|k: int|
            #![trigger match_spec(old, new).matched[k]]
            0 <= k < match_spec(old, new).matched.len() ==> pair_justified(
                old,
                new,
                match_spec(old, new).matched[k],
            ) && unit_confidence(match_spec(old, new).matched[k].2),
{
    let st = phase_body(old, new, old.len() as int);
    lemma_body_justified(old, new, old.len() as int);
    lemma_list_ok(old, new, st, old.len() as int);
    let c = candidate_list(old, new, st, old.len() as int);
    lemma_sort_desc_all(c, |x: (Ratio, (usize, usize))| candidate_ok(old, new, x));
    let sorted = sort_desc(c);
    assert forall|j: int| 0 <= j < sorted.len() implies #[trigger] candidate_ok(old, new, sorted[j]) by {
        assert((|x: (Ratio, (usize, usize))| candidate_ok(old, new, x))(sorted[j]));
    }
    lemma_assign_justified(old, new, st, sorted);
    let m = match_spec(old, new);
    assert forall|k: int| 0 <= k < m.matched.len() implies pair_justified(old, new, #[trigger] m.matched[k])
        && unit_confidence(m.matched[k].2) by {
        let p = m.matched[k];
        assert(pair_justified(old, new, p));
        lemma_pair_score_unit(old[p.0 as int], new[p.1 as int]);
    }
}

// ------------------------------------------------- a list against itself

/// The first `i` symbols paired each with itself, at confidence one.
pub open spec fn diagonal(n: nat, i: int) -> MatchState {
    MatchState {
        used_old: Seq::new(n, |k: int| k < i),
        used_new: Seq::new(n, |k: int| k < i),
        matched: Seq::new(i as nat, |k: int| (k as usize, k as usize, Ratio { num: 1, den: 1 })),
    }
}

proof fn lemma_first_by_qname_diagonal(s: Seq<SymbolView>, used: Seq<bool>, i: int, k: int)
    requires
        0 <= k <= i < s.len(),
        used.len() == s.len(),
        forall|j: int| 0 <= j < i ==> used[j],
        !used[i],
    ensures
        first_by_qname(s, used, s[i].qualified_name, k) == i,
    decreases i - k,
{
    if k < i {
        lemma_first_by_qname_diagonal(s, used, i, k + 1);
    }
}

proof fn lemma_qname_diagonal(s: Seq<SymbolView>, i: int)
    requires
        0 <= i <= s.len(),
        s.len() <= usize::MAX,
    ensures
        phase_qname(s, s, i) == diagonal(s.len(), i),
    decreases i,
{
    if i <= 0 {
        assert(initial_state(s.len(), s.len()).used_old =~= diagonal(s.len(), i).used_old);
        assert(initial_state(s.len(), s.len()).used_new =~= diagonal(s.len(), i).used_new);
        assert(initial_state(s.len(), s.len()).matched =~= diagonal(s.len(), i).matched);
    } else {
        lemma_qname_diagonal(s, i - 1);
        let st = diagonal(s.len(), i - 1);
        lemma_first_by_qname_diagonal(s, st.used_new, i - 1, 0);
        let t = take_pair(st, i - 1, i - 1, Ratio { num: 1, den: 1 });
        let d = diagonal(s.len(), i);
        assert(t.used_old =~= d.used_old);
        assert(t.used_new =~= d.used_new);
        assert(t.matched =~= d.matched);
    }
}

proof fn lemma_body_diagonal(s: Seq<SymbolView>, i: int)
    requires
        0 <= i <= s.len(),
        s.len() <= usize::MAX,
    ensures
        phase_body(s, s, i) == diagonal(s.len(), s.len() as int),
    decreases i,
{
    if i <= 0 {
        lemma_qname_diagonal(s, s.len() as int);
    } else {
        lemma_body_diagonal(s, i - 1);
    }
}

proof fn lemma_no_candidates(s: Seq<SymbolView>, i: int)
    requires
        0 <= i <= s.len(),
    ensures
        candidate_list(s, s, diagonal(s.len(), s.len() as int), i).len() == 0,
    decreases i,
{
    if i > 0 {
        lemma_no_candidates(s, i - 1);
        lemma_no_row(s, i - 1, s.len() as int);
    }
}

proof fn lemma_no_row(s: Seq<SymbolView>, oi: int, k: int)
    requires
        0 <= oi < s.len(),
        0 <= k <= s.len(),
    ensures
        candidate_row(s, s, diagonal(s.len(), s.len() as int), oi, k).len() == 0,
    decreases k,
{
    if k > 0 {
        lemma_no_row(s, oi, k - 1);
    }
}

proof fn lemma_unused_none(used: Seq<bool>, k: int)
    requires
        0 <= k <= used.len(),
        forall|j: int| 0 <= j < used.len() ==> used[j],
    ensures
        unused_upto(used, k).len() == 0,
    decreases k,
{
    if k > 0 {
        lemma_unused_none(used, k - 1);
    }
}

/// Matching a list of symbols with itself pairs every symbol with itself,
/// in order, at confidence one, and leaves nothing unmatched.
pub proof fn lemma_match_self(s: Seq<SymbolView>)
    requires
        s.len() <= usize::MAX,
    ensures
        match_spec(s, s).matched == Seq::new(
            s.len(),
            |k: int| (k as usize, k as usize, Ratio { num: 1, den: 1 }),
        ),
        match_spec(s, s).unmatched_old.len() == 0,
        match_spec(s, s).unmatched_new.len() == 0,
{
    let n = s.len();
    lemma_body_diagonal(s, n as int);
    let st = diagonal(n, n as int);
    lemma_no_candidates(s, n as int);
    let c = candidate_list(s, s, st, n as int);
    assert(sort_desc(c).len() == 0);
    assert(assign(st, sort_desc(c)) == st);
    lemma_unused_none(st.used_old, n as int);
    lemma_unused_none(st.used_new, n as int);
}

// ---------------------------------------------------------------- exec

pub open spec fn state_of(
    used_old: Seq<bool>,
    used_new: Seq<bool>,
    matched: Seq<(usize, usize, Ratio)>,
) -> MatchState {
    MatchState { used_old, used_new, matched }
}

/// Symbols that can take part in a matching.
pub open spec fn all_comparable(s: Seq<Symbol>) -> bool {
    forall|i: int| 0 <= i < s.len() ==> (#[trigger] s[i])@.wf() && s[i]@.comparable()
}

fn all_false(n: usize) -> (r: Vec<bool>)
    ensures
        r@ == Seq::new(n as nat, |i: int| false),
{
    let mut v: Vec<bool> = Vec::new();
    let mut i: usize = 0;
    while i < n
        invariant
            i <= n,
            v@ == Seq::new(i as nat, |k: int| false),
        decreases n - i,
    {
        v.push(false);
        i = i + 1;
        assert(v@ =~= Seq::new(i as nat, |k: int| false));
    }
    v
}

fn find_by_qname(new: &[Symbol], used: &Vec<bool>, q: &String) -> (r: usize)
    requires
        used@.len() == new@.len(),
    ensures
        r as int == first_by_qname(syms_view(new@), used@, q@, 0),
{
    let ghost nv = syms_view(new@);
    let mut k: usize = 0;
    while k < new.len()
        invariant
            k <= new.len(),
            used@.len() == new@.len(),
            nv == syms_view(new@),
            first_by_qname(nv, used@, q@, 0) == first_by_qname(nv, used@, q@, k as int),
        decreases new.len() - k,
    {
        if !used[k] && new[k].qualified_name == *q {
            return k;
        }
        k = k + 1;
    }
    k
}

fn find_by_body(new: &[Symbol], used: &Vec<bool>, o: &Symbol) -> (r: usize)
    requires
        used@.len() == new@.len(),
    ensures
        r as int == first_by_body(syms_view(new@), used@, o@, 0),
{
    let ghost nv = syms_view(new@);
    let mut k: usize = 0;
    while k < new.len()
        invariant
            k <= new.len(),
            used@.len() == new@.len(),
            nv == syms_view(new@),
            first_by_body(nv, used@, o@, 0) == first_by_body(nv, used@, o@, k as int),
        decreases new.len() - k,
    {
        if !used[k] && hash_eq(&new[k].body_hash, &o.body_hash) && new[k].kind == o.kind {
            return k;
        }
        k = k + 1;
    }
    k
}

/// The combined score `2/5 * name + 3/5 * body` of two comparable symbols.
fn score_pair(o: &Symbol, n: &Symbol) -> (r: Ratio)
    requires
        o@.wf(),
        n@.wf(),
        o@.comparable(),
        n@.comparable(),
    ensures
        r == pair_score(o@, n@),
        r.wf(),
{
    let ns = o.name_similarity(n);
    let bs = o.body_similarity(n);
    proof {
        lemma_similarity_small(o@, n@);
        let b: int = COMPARABLE_BYTES as int;
        assert(ns.num * bs.den <= b * b) by (nonlinear_arith)
            requires
                ns.num <= b,
                bs.den <= b,
                0 <= ns.num,
                0 <= bs.den,
        ;
        assert(bs.num * ns.den <= b * b) by (nonlinear_arith)
            requires
                bs.num <= b,
                ns.den <= b,
                0 <= bs.num,
                0 <= ns.den,
        ;
        assert(ns.den * bs.den <= b * b) by (nonlinear_arith)
            requires
                ns.den <= b,
                bs.den <= b,
                0 <= ns.den,
                0 <= bs.den,
        ;
        assert(ns.den * bs.den > 0) by (nonlinear_arith)
            requires
                ns.den > 0,
                bs.den > 0,
        ;
        assert(b * b == 0x400_0000_0000_0000);
    }
    let num = 4 * (ns.num * bs.den) + 6 * (bs.num * ns.den);
    let den = 10 * (ns.den * bs.den);
    proof {
        assert(4 * (ns.num * bs.den) == 4 * ns.num * bs.den) by (nonlinear_arith);
        assert(6 * (bs.num * ns.den) == 6 * bs.num * ns.den) by (nonlinear_arith);
        assert(10 * (ns.den * bs.den) == 10 * ns.den * bs.den) by (nonlinear_arith);
    }
    Ratio { num, den }
}

/// Matches the symbols of the old and the new version of one file: equal
/// qualified names first, then equal bodies of the same kind, then the
/// best combined name and body similarity above one half.
pub fn match_symbols(old_symbols: &[Symbol], new_symbols: &[Symbol]) -> (r: MatchResult)
    requires
        all_comparable(old_symbols@),
        all_comparable(new_symbols@),
    ensures
        r@ == match_spec(syms_view(old_symbols@), syms_view(new_symbols@)),
{
    let ghost ov = syms_view(old_symbols@);
    let ghost nv = syms_view(new_symbols@);
    let n_old = old_symbols.len();
    let n_new = new_symbols.len();
    let mut used_old = all_false(n_old);
    let mut used_new = all_false(n_new);
    let mut matched: Vec<(usize, usize, Ratio)> = Vec::new();
    // Phase 1: equal qualified names
    let mut oi: usize = 0;
    while oi < n_old
        invariant
            oi <= n_old,
            n_old == old_symbols.len(),
            n_new == new_symbols.len(),
            ov == syms_view(old_symbols@),
            nv == syms_view(new_symbols@),
            state_of(used_old@, used_new@, matched@) == phase_qname(ov, nv, oi as int),
            used_old@.len() == n_old,
            used_new@.len() == n_new,
        decreases n_old - oi,
    {
        let old_sym = &old_symbols[oi];
        let ni = find_by_qname(new_symbols, &used_new, &old_sym.qualified_name);
        proof {
            lemma_first_by_qname(nv, used_new@, ov[oi as int].qualified_name, 0);
        }
        if ni < n_new && !used_old[oi] {
            let conf = if hash_eq(&old_sym.body_hash, &new_symbols[ni].body_hash) {
                Ratio { num: 1, den: 1 }
            } else {
                Ratio { num: 19, den: 20 }
            };
            matched.push((oi, ni, conf));
            used_old.set(oi, true);
            used_new.set(ni, true);
        }
        oi = oi + 1;
    }
    // Phase 2: equal bodies of the same kind
    let mut oi: usize = 0;
    while oi < n_old
        invariant
            oi <= n_old,
            n_old == old_symbols.len(),
            n_new == new_symbols.len(),
            ov == syms_view(old_symbols@),
            nv == syms_view(new_symbols@),
            state_of(used_old@, used_new@, matched@) == phase_body(ov, nv, oi as int),
            used_old@.len() == n_old,
            used_new@.len() == n_new,
        decreases n_old - oi,
    {
        if !used_old[oi] {
            let ni = find_by_body(new_symbols, &used_new, &old_symbols[oi]);
            proof {
                lemma_first_by_body(nv, used_new@, ov[oi as int], 0);
            }
            if ni < n_new {
                matched.push((oi, ni, Ratio { num: 9, den: 10 }));
                used_old.set(oi, true);
                used_new.set(ni, true);
            }
        }
        oi = oi + 1;
    }
    // Phase 3: similarity candidates, best first
    let ghost st2 = state_of(used_old@, used_new@, matched@);
    let mut cands: Vec<(Ratio, (usize, usize))> = Vec::new();
    let mut oi: usize = 0;
    while oi < n_old
        invariant
            oi <= n_old,
            n_old == old_symbols.len(),
            n_new == new_symbols.len(),
            ov == syms_view(old_symbols@),
            nv == syms_view(new_symbols@),
            all_comparable(old_symbols@),
            all_comparable(new_symbols@),
            st2 == state_of(used_old@, used_new@, matched@),
            used_old@.len() == n_old,
            used_new@.len() == n_new,
            cands@ == candidate_list(ov, nv, st2, oi as int),
            all_wf(cands@),
        decreases n_old - oi,
    {
        let mut ni: usize = 0;
        while ni < n_new
            invariant
                oi < n_old,
                ni <= n_new,
                n_old == old_symbols.len(),
                n_new == new_symbols.len(),
                ov == syms_view(old_symbols@),
                nv == syms_view(new_symbols@),
                all_comparable(old_symbols@),
                all_comparable(new_symbols@),
                st2 == state_of(used_old@, used_new@, matched@),
                used_old@.len() == n_old,
                used_new@.len() == n_new,
                cands@ == candidate_list(ov, nv, st2, oi as int) + candidate_row(
                    ov,
                    nv,
                    st2,
                    oi as int,
                    ni as int,
                ),
                all_wf(cands@),
            decreases n_new - ni,
        {
            let ghost prev = cands@;
            if !used_old[oi] && !used_new[ni] && old_symbols[oi].kind == new_symbols[ni].kind {
                assert(old_symbols@[oi as int]@.wf() && old_symbols@[oi as int]@.comparable());
                assert(new_symbols@[ni as int]@.wf() && new_symbols@[ni as int]@.comparable());
                let score = score_pair(&old_symbols[oi], &new_symbols[ni]);
                if score.exceeds(1, 2) {
                    cands.push((score, (oi, ni)));
                    proof {
                        assert(cands@ =~= prev.push((score, (oi, ni))));
                    }
                }
            }
            proof {
                assert(ov[oi as int] == old_symbols@[oi as int]@);
                assert(nv[ni as int] == new_symbols@[ni as int]@);
                assert(cands@ =~= candidate_list(ov, nv, st2, oi as int) + candidate_row(
                    ov,
                    nv,
                    st2,
                    oi as int,
                    ni + 1,
                ));
            }
            ni = ni + 1;
        }
        oi = oi + 1;
    }
    proof {
        lemma_list_in_range(ov, nv, st2, n_old as int);
        lemma_sorted_in_range(cands@, n_old as nat, n_new as nat);
        lemma_sort_desc_len(cands@);
        lemma_phase_body(ov, nv, n_old as int);
    }
    let sorted = sort_by_score_desc(cands);
    let ghost sv = sorted@;
    let mut j: usize = 0;
    while j < sorted.len()
        invariant
            j <= sorted.len(),
            sv == sorted@,
            in_range(sv, n_old as nat, n_new as nat),
            n_old == old_symbols.len(),
            n_new == new_symbols.len(),
            used_old@.len() == n_old,
            used_new@.len() == n_new,
            state_of(used_old@, used_new@, matched@) == assign(st2, sv.take(j as int)),
        decreases sorted.len() - j,
    {
        let (score, (o, n)) = sorted[j];
        proof {
            assert(sv.take(j + 1).drop_last() =~= sv.take(j as int));
            assert(sv[j as int].1.0 < n_old && sv[j as int].1.1 < n_new);
        }
        if !used_old[o] && !used_new[n] {
            matched.push((o, n, score));
            used_old.set(o, true);
            used_new.set(n, true);
        }
        j = j + 1;
    }
    proof {
        assert(sv.take(sorted.len() as int) =~= sv);
    }
    let unmatched_old = unused_indices(&used_old);
    let unmatched_new = unused_indices(&used_new);
    MatchResult { matched, unmatched_old, unmatched_new }
}

fn unused_indices(used: &Vec<bool>) -> (r: Vec<usize>)
    ensures
        r@ == unused_upto(used@, used@.len() as int),
{
    let mut out: Vec<usize> = Vec::new();
    let mut i: usize = 0;
    while i < used.len()
        invariant
            i <= used.len(),
            out@ == unused_upto(used@, i as int),
        decreases used.len() - i,
    {
        if !used[i] {
            out.push(i);
        }
        i = i + 1;
    }
    out
}

} // verus!
