//! Detection of symbols that moved between files, were extracted from a
//! larger body, or were inlined into one.
use vstd::prelude::*;

use crate::ast::symbol::{
    body_similarity_spec, bytes_len, hash_eq, lemma_similarity_small, Symbol, SymbolView,
};
use crate::diff::matcher::{all_comparable, syms_view};
use crate::rank::{all_wf, insert_desc, lemma_sort_desc_all, lemma_sort_desc_len, sort_by_score_desc, sort_desc};
use crate::ratio::Ratio;
use crate::text::{byte_len, chars_of, contains_chars, contains_seq};

verus! {

#[derive(Debug, Clone, Copy, PartialEq, Eq, Structural)]
pub enum CrossMatchType {
    /// Same body, different file.
    ExactBody,
    /// Same name, similar body, different file.
    NameAndBody,
    /// Different name, very similar body, different file.
    SimilarBody,
    /// The new body lies within an old body.
    Extracted,
    /// The old body lies within a new body.
    Inlined,
}

/// A candidate match between symbols of different files.
#[derive(Debug, Clone, Copy)]
pub struct CrossFileMatch {
    pub old_idx: usize,
    pub new_idx: usize,
    pub confidence: Ratio,
    pub match_type: CrossMatchType,
}

/// What the detection has decided so far.
pub struct CrossState {
    pub used_old: Seq<bool>,
    pub used_new: Seq<bool>,
    pub found: Seq<CrossFileMatch>,
}

pub open spec fn cross_initial(n_old: nat, n_new: nat) -> CrossState {
    CrossState {
        used_old: Seq::new(n_old, |i: int| false),
        used_new: Seq::new(n_new, |i: int| false),
        found: Seq::empty(),
    }
}

pub open spec fn record(st: CrossState, m: CrossFileMatch, mark_old: bool, mark_new: bool) -> CrossState {
    CrossState {
        used_old: if mark_old {
            st.used_old.update(m.old_idx as int, true)
        } else {
            st.used_old
        },
        used_new: if mark_new {
            st.used_new.update(m.new_idx as int, true)
        } else {
            st.used_new
        },
        found: st.found.push(m),
    }
}

pub open spec fn scaled(r: Ratio, p: int, q: int) -> Ratio {
    Ratio { num: (r.num * p) as u64, den: (r.den * q) as u64 }
}

// ---------------------------------------------------------------- phase 1

/// A free new symbol with the body, and the kind, of `o`, in another file.
pub open spec fn exact_body_fits(o: SymbolView, n: SymbolView, used: bool) -> bool {
    !used && n.body_hash == o.body_hash && n.kind == o.kind && n.file_path != o.file_path
}

pub open spec fn first_exact(new: Seq<SymbolView>, used: Seq<bool>, o: SymbolView, k: int) -> int
    decreases new.len() - k,
{
    if k < 0 || k >= new.len() {
        new.len() as int
    } else if exact_body_fits(o, new[k], used[k]) {
        k
    } else {
        first_exact(new, used, o, k + 1)
    }
}

pub open spec fn step_exact(old: Seq<SymbolView>, new: Seq<SymbolView>, st: CrossState, oi: int) -> CrossState {
    if st.used_old[oi] {
        st
    } else {
        let ni = first_exact(new, st.used_new, old[oi], 0);
        if ni < new.len() {
            record(
                st,
                CrossFileMatch {
                    old_idx: oi as usize,
                    new_idx: ni as usize,
                    confidence: Ratio { num: 19, den: 20 },
                    match_type: CrossMatchType::ExactBody,
                },
                true,
                true,
            )
        } else {
            st
        }
    }
}

pub open spec fn phase_exact(old: Seq<SymbolView>, new: Seq<SymbolView>, i: int) -> CrossState
    decreases i,
{
    if i <= 0 {
        cross_initial(old.len(), new.len())
    } else {
        step_exact(old, new, phase_exact(old, new, i - 1), i - 1)
    }
}

// ---------------------------------------------------------------- phase 2

/// A free new symbol with the name and kind of `o`, in another file.
pub open spec fn same_name_fits(o: SymbolView, n: SymbolView, used: bool) -> bool {
    !used && n.name == o.name && n.kind == o.kind && n.file_path != o.file_path
}

/// Among the first `k` new symbols, the first of those with the highest
/// body similarity above one half.
pub open spec fn best_same_name(new: Seq<SymbolView>, used: Seq<bool>, o: SymbolView, k: int) -> Option<
    (int, Ratio),
>
    decreases k,
{
    if k <= 0 {
        None
    } else {
        let prev = best_same_name(new, used, o, k - 1);
        let ni = k - 1;
        let sim = body_similarity_spec(o, new[ni]);
        let better = match prev {
            None => true,
            Some(b) => b.1.lt(sim),
        };
        if same_name_fits(o, new[ni], used[ni]) && sim.above(1, 2) && better {
            Some((ni, sim))
        } else {
            prev
        }
    }
}

pub open spec fn step_name(old: Seq<SymbolView>, new: Seq<SymbolView>, st: CrossState, oi: int) -> CrossState {
    if st.used_old[oi] {
        st
    } else {
        match best_same_name(new, st.used_new, old[oi], new.len() as int) {
            Some((ni, sim)) => record(
                st,
                CrossFileMatch {
                    old_idx: oi as usize,
                    new_idx: ni as usize,
                    confidence: scaled(sim, 9, 10),
                    match_type: CrossMatchType::NameAndBody,
                },
                true,
                true,
            ),
            None => st,
        }
    }
}

pub open spec fn phase_name(old: Seq<SymbolView>, new: Seq<SymbolView>, i: int) -> CrossState
    decreases i,
{
    if i <= 0 {
        phase_exact(old, new, old.len() as int)
    } else {
        step_name(old, new, phase_name(old, new, i - 1), i - 1)
    }
}

// ---------------------------------------------------------------- phase 3

/// A free pair of the same kind in different files with body similarity
/// of at least seven tenths.
pub open spec fn similar_fits(old: Seq<SymbolView>, new: Seq<SymbolView>, st: CrossState, oi: int, ni: int) -> bool {
    !st.used_old[oi] && !st.used_new[ni] && old[oi].kind == new[ni].kind && old[oi].file_path
        != new[ni].file_path && body_similarity_spec(old[oi], new[ni]).at_least(7, 10)
}

pub open spec fn similar_row(old: Seq<SymbolView>, new: Seq<SymbolView>, st: CrossState, oi: int, k: int) -> Seq<
    (Ratio, (usize, usize)),
>
    decreases k,
{
    if k <= 0 {
        Seq::empty()
    } else {
        let r = similar_row(old, new, st, oi, k - 1);
        if similar_fits(old, new, st, oi, k - 1) {
            r.push(
                (
                    scaled(body_similarity_spec(old[oi], new[k - 1]), 17, 20),
                    (oi as usize, (k - 1) as usize),
                ),
            )
        } else {
            r
        }
    }
}

pub open spec fn similar_list(old: Seq<SymbolView>, new: Seq<SymbolView>, st: CrossState, i: int) -> Seq<
    (Ratio, (usize, usize)),
>
    decreases i,
{
    if i <= 0 {
        Seq::empty()
    } else {
        similar_list(old, new, st, i - 1) + similar_row(old, new, st, i - 1, new.len() as int)
    }
}

/// Greedy assignment of the similar-body candidates, best first.
pub open spec fn assign_similar(st: CrossState, sorted: Seq<(Ratio, (usize, usize))>) -> CrossState
    decreases sorted.len(),
{
    if sorted.len() == 0 {
        st
    } else {
        let s = assign_similar(st, sorted.drop_last());
        let c = sorted.last();
        if !s.used_old[c.1.0 as int] && !s.used_new[c.1.1 as int] {
            record(
                s,
                CrossFileMatch {
                    old_idx: c.1.0,
                    new_idx: c.1.1,
                    confidence: c.0,
                    match_type: CrossMatchType::SimilarBody,
                },
                true,
                true,
            )
        } else {
            s
        }
    }
}

pub open spec fn phase_similar(old: Seq<SymbolView>, new: Seq<SymbolView>) -> CrossState {
    let st = phase_name(old, new, old.len() as int);
    assign_similar(st, sort_desc(similar_list(old, new, st, old.len() as int)))
}

// ---------------------------------------------------------------- phase 4

/// `inner` lies within `outer`, both long enough, and is more than 3/20 of
/// its length (in bytes).
pub open spec fn contained(inner: Seq<char>, outer: Seq<char>) -> bool {
    bytes_len(outer) >= 50 && bytes_len(inner) >= 20 && contains_seq(outer, inner) && bytes_len(
        inner,
    ) * 20 > 3 * bytes_len(outer)
}

pub open spec fn extract_row(old: Seq<SymbolView>, new: Seq<SymbolView>, st: CrossState, oi: int, k: int) -> CrossState
    decreases k,
{
    if k <= 0 {
        st
    } else {
        let s = extract_row(old, new, st, oi, k - 1);
        let ni = k - 1;
        if !s.used_new[ni] && contained(new[ni].normalized_body, old[oi].normalized_body) {
            record(
                s,
                CrossFileMatch {
                    old_idx: oi as usize,
                    new_idx: ni as usize,
                    confidence: Ratio { num: 7, den: 10 },
                    match_type: CrossMatchType::Extracted,
                },
                false,
                true,
            )
        } else {
            s
        }
    }
}

pub open spec fn phase_extract(old: Seq<SymbolView>, new: Seq<SymbolView>, i: int) -> CrossState
    decreases i,
{
    if i <= 0 {
        phase_similar(old, new)
    } else {
        let s = phase_extract(old, new, i - 1);
        if bytes_len(old[i - 1].normalized_body) < 50 {
            s
        } else {
            extract_row(old, new, s, i - 1, new.len() as int)
        }
    }
}

// ---------------------------------------------------------------- phase 5

pub open spec fn inline_row(old: Seq<SymbolView>, new: Seq<SymbolView>, st: CrossState, oi: int, k: int) -> CrossState
    decreases k,
{
    if k <= 0 {
        st
    } else {
        let s = inline_row(old, new, st, oi, k - 1);
        let ni = k - 1;
        if !s.used_new[ni] && contained(old[oi].normalized_body, new[ni].normalized_body) {
            record(
                s,
                CrossFileMatch {
                    old_idx: oi as usize,
                    new_idx: ni as usize,
                    confidence: Ratio { num: 13, den: 20 },
                    match_type: CrossMatchType::Inlined,
                },
                true,
                false,
            )
        } else {
            s
        }
    }
}

pub open spec fn phase_inline(old: Seq<SymbolView>, new: Seq<SymbolView>, i: int) -> CrossState
    decreases i,
{
    if i <= 0 {
        phase_extract(old, new, old.len() as int)
    } else {
        let s = phase_inline(old, new, i - 1);
        if s.used_old[i - 1] || bytes_len(old[i - 1].normalized_body) < 20 {
            s
        } else {
            inline_row(old, new, s, i - 1, new.len() as int)
        }
    }
}

/// All matches found across files, phase by phase.
pub open spec fn cross_spec(old: Seq<SymbolView>, new: Seq<SymbolView>) -> Seq<CrossFileMatch> {
    phase_inline(old, new, old.len() as int).found
}

// ---------------------------------------------------- why symbols match

/// What a cross-file match of `old[m.old_idx]` and `new[m.new_idx]` rests
/// on, by its type: the same body and kind in another file (19/20); the
/// same name and kind in another file, with body similarity above one half
/// (scaled by 9/10); the same kind in another file, with body similarity
/// of at least seven tenths (scaled by 17/20); the new body within the old one
/// (7/10); the old body within the new one (13/20).
pub open spec fn cross_justified(old: Seq<SymbolView>, new: Seq<SymbolView>, m: CrossFileMatch) -> bool {
    let o = old[m.old_idx as int];
    let n = new[m.new_idx as int];
    let sim = body_similarity_spec(o, n);
    &&& m.old_idx < old.len()
    &&& m.new_idx < new.len()
    &&& match m.match_type {
        CrossMatchType::ExactBody => o.body_hash == n.body_hash && o.kind == n.kind && o.file_path
            != n.file_path && m.confidence == Ratio { num: 19, den: 20 },
        CrossMatchType::NameAndBody => o.name == n.name && o.kind == n.kind && o.file_path
            != n.file_path && sim.above(1, 2) && m.confidence == scaled(sim, 9, 10),
        CrossMatchType::SimilarBody => o.kind == n.kind && o.file_path != n.file_path && sim.at_least(7, 10)
            && m.confidence == scaled(sim, 17, 20),
        CrossMatchType::Extracted => contained(n.normalized_body, o.normalized_body) && m.confidence
            == Ratio { num: 7, den: 10 },
        CrossMatchType::Inlined => contained(o.normalized_body, n.normalized_body) && m.confidence
            == Ratio { num: 13, den: 20 },
    }
}

pub open spec fn found_justified(old: Seq<SymbolView>, new: Seq<SymbolView>, f: Seq<CrossFileMatch>) -> bool {
    forall|k: int| 0 <= k < f.len() ==> #[trigger] cross_justified(old, new, f[k])
}

proof fn lemma_record_justified(
    old: Seq<SymbolView>,
    new: Seq<SymbolView>,
    st: CrossState,
    m: CrossFileMatch,
    a: bool,
    b: bool,
)
    requires
        found_justified(old, new, st.found),
        cross_justified(old, new, m),
    ensures
        found_justified(old, new, record(st, m, a, b).found),
{
    let f = record(st, m, a, b).found;
    assert forall|k: int| 0 <= k < f.len() implies #[trigger] cross_justified(old, new, f[k]) by {
        if k < st.found.len() {
            assert(f[k] == st.found[k]);
        }
    }
}

proof fn lemma_first_exact(new: Seq<SymbolView>, used: Seq<bool>, o: SymbolView, k: int)
    requires
        0 <= k <= new.len(),
    ensures
        k <= first_exact(new, used, o, k) <= new.len(),
        first_exact(new, used, o, k) < new.len() ==> exact_body_fits(
            o,
            new[first_exact(new, used, o, k)],
            used[first_exact(new, used, o, k)],
        ),
    decreases new.len() - k,
{
    if k < new.len() && !exact_body_fits(o, new[k], used[k]) {
        lemma_first_exact(new, used, o, k + 1);
    }
}

proof fn lemma_best_same_name(new: Seq<SymbolView>, used: Seq<bool>, o: SymbolView, k: int)
    requires
        0 <= k <= new.len(),
    ensures
        best_same_name(new, used, o, k) matches Some((ni, sim)) ==> 0 <= ni < k && same_name_fits(
            o,
            new[ni],
            used[ni],
        ) && sim == body_similarity_spec(o, new[ni]) && sim.above(1, 2),
    decreases k,
{
    if k > 0 {
        lemma_best_same_name(new, used, o, k - 1);
    }
}

proof fn lemma_exact_justified(old: Seq<SymbolView>, new: Seq<SymbolView>, i: int)
    requires
        0 <= i <= old.len(),
        old.len() <= usize::MAX,
        new.len() <= usize::MAX,
    ensures
        found_justified(old, new, phase_exact(old, new, i).found),
    decreases i,
{
    if i > 0 {
        lemma_exact_justified(old, new, i - 1);
        let st = phase_exact(old, new, i - 1);
        if !st.used_old[i - 1] {
            lemma_first_exact(new, st.used_new, old[i - 1], 0);
            let ni = first_exact(new, st.used_new, old[i - 1], 0);
            if ni < new.len() {
                let m = CrossFileMatch {
                    old_idx: (i - 1) as usize,
                    new_idx: ni as usize,
                    confidence: Ratio { num: 19, den: 20 },
                    match_type: CrossMatchType::ExactBody,
                };
                lemma_record_justified(old, new, st, m, true, true);
            }
        }
    }
}

proof fn lemma_name_justified(old: Seq<SymbolView>, new: Seq<SymbolView>, i: int)
    requires
        0 <= i <= old.len(),
        old.len() <= usize::MAX,
        new.len() <= usize::MAX,
    ensures
        found_justified(old, new, phase_name(old, new, i).found),
    decreases i,
{
    if i <= 0 {
        lemma_exact_justified(old, new, old.len() as int);
    } else {
        lemma_name_justified(old, new, i - 1);
        let st = phase_name(old, new, i - 1);
        if !st.used_old[i - 1] {
            lemma_best_same_name(new, st.used_new, old[i - 1], new.len() as int);
            match best_same_name(new, st.used_new, old[i - 1], new.len() as int) {
                Some((ni, sim)) => {
                    let m = CrossFileMatch {
                        old_idx: (i - 1) as usize,
                        new_idx: ni as usize,
                        confidence: scaled(sim, 9, 10),
                        match_type: CrossMatchType::NameAndBody,
                    };
                    lemma_record_justified(old, new, st, m, true, true);
                },
                None => {},
            }
        }
    }
}

/// A similar-body candidate: indices in range, the same kind in another
/// file, similarity of at least seven tenths, scaled by 17/20.
pub open spec fn similar_ok(old: Seq<SymbolView>, new: Seq<SymbolView>, c: (Ratio, (usize, usize))) -> bool {
    let o = old[c.1.0 as int];
    let n = new[c.1.1 as int];
    &&& c.1.0 < old.len()
    &&& c.1.1 < new.len()
    &&& o.kind == n.kind
    &&& o.file_path != n.file_path
    &&& body_similarity_spec(o, n).at_least(7, 10)
    &&& c.0 == scaled(body_similarity_spec(o, n), 17, 20)
}

proof fn lemma_similar_row_ok(old: Seq<SymbolView>, new: Seq<SymbolView>, st: CrossState, oi: int, k: int)
    requires
        0 <= oi < old.len(),
        0 <= k <= new.len(),
        old.len() <= usize::MAX,
        new.len() <= usize::MAX,
    ensures
        forall|j: int|
            0 <= j < similar_row(old, new, st, oi, k).len() ==> #[trigger] similar_ok(
                old,
                new,
                similar_row(old, new, st, oi, k)[j],
            ),
    decreases k,
{
    if k > 0 {
        lemma_similar_row_ok(old, new, st, oi, k - 1);
        let r = similar_row(old, new, st, oi, k - 1);
        let s = similar_row(old, new, st, oi, k);
        assert forall|j: int| 0 <= j < s.len() implies #[trigger] similar_ok(old, new, s[j]) by {
            if j < r.len() {
                assert(s[j] == r[j]);
            }
        }
    }
}

proof fn lemma_similar_list_ok(old: Seq<SymbolView>, new: Seq<SymbolView>, st: CrossState, i: int)
    requires
        0 <= i <= old.len(),
        old.len() <= usize::MAX,
        new.len() <= usize::MAX,
    ensures
        forall|j: int|
            0 <= j < similar_list(old, new, st, i).len() ==> #[trigger] similar_ok(
                old,
                new,
                similar_list(old, new, st, i)[j],
            ),
    decreases i,
{
    if i > 0 {
        lemma_similar_list_ok(old, new, st, i - 1);
        lemma_similar_row_ok(old, new, st, i - 1, new.len() as int);
        let a = similar_list(old, new, st, i - 1);
        let b = similar_row(old, new, st, i - 1, new.len() as int);
        assert forall|j: int| 0 <= j < (a + b).len() implies #[trigger] similar_ok(old, new, (a + b)[j]) by {
            if j < a.len() {
                assert((a + b)[j] == a[j]);
            } else {
                assert((a + b)[j] == b[j - a.len()]);
            }
        }
    }
}

proof fn lemma_assign_similar_justified(
    old: Seq<SymbolView>,
    new: Seq<SymbolView>,
    st: CrossState,
    sorted: Seq<(Ratio, (usize, usize))>,
)
    requires
        found_justified(old, new, st.found),
        forall|j: int| 0 <= j < sorted.len() ==> #[trigger] similar_ok(old, new, sorted[j]),
    ensures
        found_justified(old, new, assign_similar(st, sorted).found),
    decreases sorted.len(),
{
    if sorted.len() > 0 {
        let init = sorted.drop_last();
        assert forall|j: int| 0 <= j < init.len() implies #[trigger] similar_ok(old, new, init[j]) by {
            assert(init[j] == sorted[j]);
        }
        lemma_assign_similar_justified(old, new, st, init);
        let s = assign_similar(st, init);
        let c = sorted.last();
        assert(similar_ok(old, new, sorted[sorted.len() - 1]));
        if !s.used_old[c.1.0 as int] && !s.used_new[c.1.1 as int] {
            let m = CrossFileMatch {
                old_idx: c.1.0,
                new_idx: c.1.1,
                confidence: c.0,
                match_type: CrossMatchType::SimilarBody,
            };
            lemma_record_justified(old, new, s, m, true, true);
        }
    }
}

proof fn lemma_similar_justified(old: Seq<SymbolView>, new: Seq<SymbolView>)
    requires
        old.len() <= usize::MAX,
        new.len() <= usize::MAX,
    ensures
        found_justified(old, new, phase_similar(old, new).found),
{
    let st = phase_name(old, new, old.len() as int);
    lemma_name_justified(old, new, old.len() as int);
    lemma_similar_list_ok(old, new, st, old.len() as int);
    let c = similar_list(old, new, st, old.len() as int);
    lemma_sort_desc_all(c, |x: (Ratio, (usize, usize))| similar_ok(old, new, x));
    let sorted = sort_desc(c);
    assert forall|j: int| 0 <= j < sorted.len() implies #[trigger] similar_ok(old, new, sorted[j]) by {
        assert((|x: (Ratio, (usize, usize))| similar_ok(old, new, x))(sorted[j]));
    }
    lemma_assign_similar_justified(old, new, st, sorted);
}

proof fn lemma_extract_row_justified(old: Seq<SymbolView>, new: Seq<SymbolView>, st: CrossState, oi: int, k: int)
    requires
        0 <= oi < old.len(),
        0 <= k <= new.len(),
        old.len() <= usize::MAX,
        new.len() <= usize::MAX,
        found_justified(old, new, st.found),
    ensures
        found_justified(old, new, extract_row(old, new, st, oi, k).found),
    decreases k,
{
    if k > 0 {
        lemma_extract_row_justified(old, new, st, oi, k - 1);
        let s = extract_row(old, new, st, oi, k - 1);
        let m = CrossFileMatch {
            old_idx: oi as usize,
            new_idx: (k - 1) as usize,
            confidence: Ratio { num: 7, den: 10 },
            match_type: CrossMatchType::Extracted,
        };
        if !s.used_new[k - 1] && contained(new[k - 1].normalized_body, old[oi].normalized_body) {
            lemma_record_justified(old, new, s, m, false, true);
        }
    }
}

proof fn lemma_extract_justified(old: Seq<SymbolView>, new: Seq<SymbolView>, i: int)
    requires
        0 <= i <= old.len(),
        old.len() <= usize::MAX,
        new.len() <= usize::MAX,
    ensures
        found_justified(old, new, phase_extract(old, new, i).found),
    decreases i,
{
    if i <= 0 {
        lemma_similar_justified(old, new);
    } else {
        lemma_extract_justified(old, new, i - 1);
        if bytes_len(old[i - 1].normalized_body) >= 50 {
            lemma_extract_row_justified(old, new, phase_extract(old, new, i - 1), i - 1, new.len() as int);
        }
    }
}

proof fn lemma_inline_row_justified(old: Seq<SymbolView>, new: Seq<SymbolView>, st: CrossState, oi: int, k: int)
    requires
        0 <= oi < old.len(),
        0 <= k <= new.len(),
        old.len() <= usize::MAX,
        new.len() <= usize::MAX,
        found_justified(old, new, st.found),
    ensures
        found_justified(old, new, inline_row(old, new, st, oi, k).found),
    decreases k,
{
    if k > 0 {
        lemma_inline_row_justified(old, new, st, oi, k - 1);
        let s = inline_row(old, new, st, oi, k - 1);
        let m = CrossFileMatch {
            old_idx: oi as usize,
            new_idx: (k - 1) as usize,
            confidence: Ratio { num: 13, den: 20 },
            match_type: CrossMatchType::Inlined,
        };
        if !s.used_new[k - 1] && contained(old[oi].normalized_body, new[k - 1].normalized_body) {
            lemma_record_justified(old, new, s, m, true, false);
        }
    }
}

proof fn lemma_inline_justified(old: Seq<SymbolView>, new: Seq<SymbolView>, i: int)
    requires
        0 <= i <= old.len(),
        old.len() <= usize::MAX,
        new.len() <= usize::MAX,
    ensures
        found_justified(old, new, phase_inline(old, new, i).found),
    decreases i,
{
    if i <= 0 {
        lemma_extract_justified(old, new, old.len() as int);
    } else {
        lemma_inline_justified(old, new, i - 1);
        let s = phase_inline(old, new, i - 1);
        if !(s.used_old[i - 1] || bytes_len(old[i - 1].normalized_body) < 20) {
            lemma_inline_row_justified(old, new, s, i - 1, new.len() as int);
        }
    }
}

/// Every cross-file match rests on what its type says: a move keeps the
/// body (19/20) or the name with a body more than half alike (9/10 of the
/// similarity), or keeps a body at least seven tenths alike (17/20 of the
/// similarity), each in another file and of the same kind; an extraction's
/// new body lies within the old one (7/10); an inlined old body lies within
/// the new one (13/20).
pub proof fn lemma_cross_justified(old: Seq<SymbolView>, new: Seq<SymbolView>)
    requires
        old.len() <= usize::MAX,
        new.len() <= usize::MAX,
    ensures
        found_justified(old, new, cross_spec(old, new)),
{
    lemma_inline_justified(old, new, old.len() as int);
}


// ------------------------------------------------ inlining is complete

/// A move that takes the old symbol out of later phases.
pub open spec fn takes_old(t: CrossMatchType) -> bool {
    t is ExactBody || t is NameAndBody || t is SimilarBody
}

/// Some match of `f` takes old symbol `i` out of later phases.
pub open spec fn claims_old(f: Seq<CrossFileMatch>, i: int) -> bool {
    exists|k: int| 0 <= k < f.len() && (#[trigger] f[k]).old_idx == i && takes_old(f[k].match_type)
}

/// Some match of `f` other than an inlining takes new symbol `j`.
pub open spec fn claims_new(f: Seq<CrossFileMatch>, j: int) -> bool {
    exists|k: int| 0 <= k < f.len() && (#[trigger] f[k]).new_idx == j && !(f[k].match_type is Inlined)
}

/// The flags of a detection state are backed by the matches found.
pub open spec fn flags_backed(st: CrossState, n_old: nat, n_new: nat) -> bool {
    &&& st.used_old.len() == n_old
    &&& st.used_new.len() == n_new
    &&& forall|i: int| 0 <= i < n_old && #[trigger] st.used_old[i] ==> claims_old(st.found, i)
    &&& forall|j: int| 0 <= j < n_new && #[trigger] st.used_new[j] ==> claims_new(st.found, j)
}

/// `b` keeps every match of `a`, in place.
pub open spec fn extends(a: Seq<CrossFileMatch>, b: Seq<CrossFileMatch>) -> bool {
    a.len() <= b.len() && forall|k: int| 0 <= k < a.len() ==> #[trigger] b[k] == a[k]
}

proof fn lemma_extends_claims(a: Seq<CrossFileMatch>, b: Seq<CrossFileMatch>, i: int)
    requires
        extends(a, b),
    ensures
        claims_old(a, i) ==> claims_old(b, i),
        claims_new(a, i) ==> claims_new(b, i),
        forall|m: CrossFileMatch| a.contains(m) ==> b.contains(m),
{
    if claims_old(a, i) {
        let k = choose|k: int| 0 <= k < a.len() && (#[trigger] a[k]).old_idx == i && takes_old(a[k].match_type);
        assert(b[k] == a[k]);
    }
    if claims_new(a, i) {
        let k = choose|k: int| 0 <= k < a.len() && (#[trigger] a[k]).new_idx == i && !(a[k].match_type is Inlined);
        assert(b[k] == a[k]);
    }
    assert forall|m: CrossFileMatch| a.contains(m) implies b.contains(m) by {
        let k = choose|k: int| 0 <= k < a.len() && a[k] == m;
        assert(b[k] == a[k]);
    }
}

proof fn lemma_record_backed(st: CrossState, m: CrossFileMatch, mo: bool, mn: bool, n_old: nat, n_new: nat)
    requires
        flags_backed(st, n_old, n_new),
        mo ==> m.old_idx < n_old && takes_old(m.match_type),
        mn ==> m.new_idx < n_new && !(m.match_type is Inlined),
    ensures
        flags_backed(record(st, m, mo, mn), n_old, n_new),
        extends(st.found, record(st, m, mo, mn).found),
{
    let r = record(st, m, mo, mn);
    let f = r.found;
    let last = st.found.len() as int;
    assert(f[last] == m);
    assert forall|i: int| 0 <= i < n_old && #[trigger] r.used_old[i] implies claims_old(f, i) by {
        if mo && i == m.old_idx {
        } else {
            assert(st.used_old[i]);
            lemma_extends_claims(st.found, f, i);
        }
    }
    assert forall|j: int| 0 <= j < n_new && #[trigger] r.used_new[j] implies claims_new(f, j) by {
        if mn && j == m.new_idx {
        } else {
            assert(st.used_new[j]);
            lemma_extends_claims(st.found, f, j);
        }
    }
}

proof fn lemma_extends_trans(a: Seq<CrossFileMatch>, b: Seq<CrossFileMatch>, c: Seq<CrossFileMatch>)
    requires
        extends(a, b),
        extends(b, c),
    ensures
        extends(a, c),
{
    assert forall|k: int| 0 <= k < a.len() implies #[trigger] c[k] == a[k] by {
        assert(c[k] == b[k]);
    }
}

proof fn lemma_exact_backed(old: Seq<SymbolView>, new: Seq<SymbolView>, i: int)
    requires
        0 <= i <= old.len(),
    ensures
        flags_backed(phase_exact(old, new, i), old.len(), new.len()),
    decreases i,
{
    if i > 0 {
        lemma_exact_backed(old, new, i - 1);
        let st = phase_exact(old, new, i - 1);
        if !st.used_old[i - 1] {
            lemma_first_exact(new, st.used_new, old[i - 1], 0);
            let ni = first_exact(new, st.used_new, old[i - 1], 0);
            if ni < new.len() {
                let m = CrossFileMatch {
                    old_idx: (i - 1) as usize,
                    new_idx: ni as usize,
                    confidence: Ratio { num: 19, den: 20 },
                    match_type: CrossMatchType::ExactBody,
                };
                lemma_record_backed(st, m, true, true, old.len(), new.len());
            }
        }
    } else {
        let st = phase_exact(old, new, i);
        assert(st.used_old.len() == old.len());
    }
}

proof fn lemma_name_backed(old: Seq<SymbolView>, new: Seq<SymbolView>, i: int)
    requires
        0 <= i <= old.len(),
    ensures
        flags_backed(phase_name(old, new, i), old.len(), new.len()),
    decreases i,
{
    if i <= 0 {
        lemma_exact_backed(old, new, old.len() as int);
    } else {
        lemma_name_backed(old, new, i - 1);
        let st = phase_name(old, new, i - 1);
        if !st.used_old[i - 1] {
            lemma_best_same_name(new, st.used_new, old[i - 1], new.len() as int);
            match best_same_name(new, st.used_new, old[i - 1], new.len() as int) {
                Some((ni, sim)) => {
                    let m = CrossFileMatch {
                        old_idx: (i - 1) as usize,
                        new_idx: ni as usize,
                        confidence: scaled(sim, 9, 10),
                        match_type: CrossMatchType::NameAndBody,
                    };
                    lemma_record_backed(st, m, true, true, old.len(), new.len());
                },
                None => {},
            }
        }
    }
}

proof fn lemma_assign_similar_backed(
    old: Seq<SymbolView>,
    new: Seq<SymbolView>,
    st: CrossState,
    sorted: Seq<(Ratio, (usize, usize))>,
)
    requires
        flags_backed(st, old.len(), new.len()),
        forall|j: int| 0 <= j < sorted.len() ==> #[trigger] similar_ok(old, new, sorted[j]),
    ensures
        flags_backed(assign_similar(st, sorted), old.len(), new.len()),
    decreases sorted.len(),
{
    if sorted.len() > 0 {
        let init = sorted.drop_last();
        assert forall|j: int| 0 <= j < init.len() implies #[trigger] similar_ok(old, new, init[j]) by {
            assert(init[j] == sorted[j]);
        }
        lemma_assign_similar_backed(old, new, st, init);
        let s = assign_similar(st, init);
        let c = sorted.last();
        assert(similar_ok(old, new, sorted[sorted.len() - 1]));
        if !s.used_old[c.1.0 as int] && !s.used_new[c.1.1 as int] {
            let m = CrossFileMatch {
                old_idx: c.1.0,
                new_idx: c.1.1,
                confidence: c.0,
                match_type: CrossMatchType::SimilarBody,
            };
            lemma_record_backed(s, m, true, true, old.len(), new.len());
        }
    }
}

proof fn lemma_extract_row_backed(old: Seq<SymbolView>, new: Seq<SymbolView>, st: CrossState, oi: int, k: int)
    requires
        0 <= oi < old.len(),
        0 <= k <= new.len(),
        flags_backed(st, old.len(), new.len()),
    ensures
        flags_backed(extract_row(old, new, st, oi, k), old.len(), new.len()),
    decreases k,
{
    if k > 0 {
        lemma_extract_row_backed(old, new, st, oi, k - 1);
        let s = extract_row(old, new, st, oi, k - 1);
        let m = CrossFileMatch {
            old_idx: oi as usize,
            new_idx: (k - 1) as usize,
            confidence: Ratio { num: 7, den: 10 },
            match_type: CrossMatchType::Extracted,
        };
        if !s.used_new[k - 1] && contained(new[k - 1].normalized_body, old[oi].normalized_body) {
            lemma_record_backed(s, m, false, true, old.len(), new.len());
        }
    }
}

proof fn lemma_extract_backed(old: Seq<SymbolView>, new: Seq<SymbolView>, i: int)
    requires
        0 <= i <= old.len(),
        old.len() <= usize::MAX,
        new.len() <= usize::MAX,
    ensures
        flags_backed(phase_extract(old, new, i), old.len(), new.len()),
    decreases i,
{
    if i <= 0 {
        let st = phase_name(old, new, old.len() as int);
        lemma_name_backed(old, new, old.len() as int);
        lemma_similar_list_ok(old, new, st, old.len() as int);
        let c = similar_list(old, new, st, old.len() as int);
        lemma_sort_desc_all(c, |x: (Ratio, (usize, usize))| similar_ok(old, new, x));
        let sorted = sort_desc(c);
        assert forall|j: int| 0 <= j < sorted.len() implies #[trigger] similar_ok(old, new, sorted[j]) by {
            assert((|x: (Ratio, (usize, usize))| similar_ok(old, new, x))(sorted[j]));
        }
        lemma_assign_similar_backed(old, new, st, sorted);
    } else {
        lemma_extract_backed(old, new, i - 1);
        if bytes_len(old[i - 1].normalized_body) >= 50 {
            lemma_extract_row_backed(old, new, phase_extract(old, new, i - 1), i - 1, new.len() as int);
        }
    }
}

/// The inlining pass over one old symbol: it marks only that old symbol,
/// keeps every match found, and records each free new symbol whose body
/// contains the old one.
proof fn lemma_inline_row_facts(old: Seq<SymbolView>, new: Seq<SymbolView>, st: CrossState, oi: int, k: int)
    requires
        old.len() <= usize::MAX,
        new.len() <= usize::MAX,
        0 <= oi < old.len(),
        0 <= k <= new.len(),
        st.used_old.len() == old.len(),
        st.used_new.len() == new.len(),
    ensures
        inline_row(old, new, st, oi, k).used_new == st.used_new,
        inline_row(old, new, st, oi, k).used_old.len() == old.len(),
        forall|i: int| 0 <= i < old.len() && i != oi ==> #[trigger] inline_row(old, new, st, oi, k).used_old[i]
            == st.used_old[i],
        extends(st.found, inline_row(old, new, st, oi, k).found),
        forall|j: int|
            0 <= j < k && !st.used_new[j] && contained(old[oi].normalized_body, new[j].normalized_body)
                ==> #[trigger] inline_row(old, new, st, oi, k).found.contains(
                CrossFileMatch {
                    old_idx: oi as usize,
                    new_idx: j as usize,
                    confidence: Ratio { num: 13, den: 20 },
                    match_type: CrossMatchType::Inlined,
                },
            ),
    decreases k,
{
    if k > 0 {
        lemma_inline_row_facts(old, new, st, oi, k - 1);
        let s = inline_row(old, new, st, oi, k - 1);
        let r = inline_row(old, new, st, oi, k);
        let m = CrossFileMatch {
            old_idx: oi as usize,
            new_idx: (k - 1) as usize,
            confidence: Ratio { num: 13, den: 20 },
            match_type: CrossMatchType::Inlined,
        };
        if !s.used_new[k - 1] && contained(old[oi].normalized_body, new[k - 1].normalized_body) {
            assert(r.found == s.found.push(m));
            assert(extends(s.found, r.found));
            lemma_extends_trans(st.found, s.found, r.found);
            assert(r.found[s.found.len() as int] == m);
            assert forall|j: int|
                0 <= j < k && !st.used_new[j] && contained(old[oi].normalized_body, new[j].normalized_body)
                    implies #[trigger] r.found.contains(
                CrossFileMatch {
                    old_idx: oi as usize,
                    new_idx: j as usize,
                    confidence: Ratio { num: 13, den: 20 },
                    match_type: CrossMatchType::Inlined,
                },
            ) by {
                if j < k - 1 {
                    lemma_extends_claims(s.found, r.found, j);
                }
            }
        }
    }
}

proof fn lemma_inline_steps(old: Seq<SymbolView>, new: Seq<SymbolView>, i: int)
    requires
        0 <= i <= old.len(),
        old.len() <= usize::MAX,
        new.len() <= usize::MAX,
    ensures
        phase_inline(old, new, i).used_new == phase_extract(old, new, old.len() as int).used_new,
        phase_inline(old, new, i).used_old.len() == old.len(),
        forall|x: int|
            i <= x < old.len() ==> #[trigger] phase_inline(old, new, i).used_old[x] == phase_extract(
                old,
                new,
                old.len() as int,
            ).used_old[x],
        extends(phase_extract(old, new, old.len() as int).found, phase_inline(old, new, i).found),
    decreases i,
{
    let e = phase_extract(old, new, old.len() as int);
    lemma_extract_backed(old, new, old.len() as int);
    if i > 0 {
        lemma_inline_steps(old, new, i - 1);
        let s = phase_inline(old, new, i - 1);
        if !(s.used_old[i - 1] || bytes_len(old[i - 1].normalized_body) < 20) {
            lemma_inline_row_facts(old, new, s, i - 1, new.len() as int);
            lemma_extends_trans(e.found, s.found, phase_inline(old, new, i).found);
        }
    }
}

proof fn lemma_inline_later(old: Seq<SymbolView>, new: Seq<SymbolView>, a: int, b: int)
    requires
        0 <= a <= b <= old.len(),
        old.len() <= usize::MAX,
        new.len() <= usize::MAX,
    ensures
        extends(phase_inline(old, new, a).found, phase_inline(old, new, b).found),
    decreases b - a,
{
    if a < b {
        lemma_inline_later(old, new, a, b - 1);
        lemma_inline_steps(old, new, b - 1);
        let s = phase_inline(old, new, b - 1);
        if !(s.used_old[b - 1] || bytes_len(old[b - 1].normalized_body) < 20) {
            lemma_extract_backed(old, new, old.len() as int);
            lemma_inline_row_facts(old, new, s, b - 1, new.len() as int);
            lemma_extends_trans(
                phase_inline(old, new, a).found,
                s.found,
                phase_inline(old, new, b).found,
            );
        }
    }
}

/// Inlining is found wherever it can be: when an old symbol's body lies
/// within a new symbol's body (as `contained` measures it), and no move
/// has taken the old symbol and no match other than an inlining has taken
/// the new one, the detection reports that the old symbol was inlined into
/// the new one, with confidence 13/20.
pub proof fn lemma_inline_complete(old: Seq<SymbolView>, new: Seq<SymbolView>, i: int, j: int)
    requires
        old.len() <= usize::MAX,
        new.len() <= usize::MAX,
        0 <= i < old.len(),
        0 <= j < new.len(),
        contained(old[i].normalized_body, new[j].normalized_body),
        !claims_old(cross_spec(old, new), i),
        !claims_new(cross_spec(old, new), j),
    ensures
        cross_spec(old, new).contains(
            CrossFileMatch {
                old_idx: i as usize,
                new_idx: j as usize,
                confidence: Ratio { num: 13, den: 20 },
                match_type: CrossMatchType::Inlined,
            },
        ),
{
    let n = old.len() as int;
    let e = phase_extract(old, new, n);
    let f = cross_spec(old, new);
    lemma_extract_backed(old, new, n);
    lemma_inline_steps(old, new, n);
    lemma_extends_claims(e.found, f, i);
    lemma_extends_claims(e.found, f, j);
    assert(!e.used_old[i]);
    assert(!e.used_new[j]);
    lemma_inline_steps(old, new, i);
    let s = phase_inline(old, new, i);
    assert(!s.used_old[i]);
    lemma_inline_row_facts(old, new, s, i, new.len() as int);
    let m = CrossFileMatch {
        old_idx: i as usize,
        new_idx: j as usize,
        confidence: Ratio { num: 13, den: 20 },
        match_type: CrossMatchType::Inlined,
    };
    assert(phase_inline(old, new, i + 1).found.contains(m));
    lemma_inline_later(old, new, i + 1, n);
    lemma_extends_claims(phase_inline(old, new, i + 1).found, f, i);
}


// ---------------------------------------- earlier phases are complete too

proof fn lemma_extends_refl(a: Seq<CrossFileMatch>)
    ensures
        extends(a, a),
{
}

proof fn lemma_record_extends(st: CrossState, m: CrossFileMatch, mo: bool, mn: bool)
    ensures
        extends(st.found, record(st, m, mo, mn).found),
        record(st, m, mo, mn).found.contains(m),
{
    assert(record(st, m, mo, mn).found[st.found.len() as int] == m);
}

proof fn lemma_exact_grows(old: Seq<SymbolView>, new: Seq<SymbolView>, a: int, b: int)
    requires
        0 <= a <= b <= old.len(),
    ensures
        extends(phase_exact(old, new, a).found, phase_exact(old, new, b).found),
    decreases b - a,
{
    if a < b {
        lemma_exact_grows(old, new, a, b - 1);
        let st = phase_exact(old, new, b - 1);
        if !st.used_old[b - 1] {
            let ni = first_exact(new, st.used_new, old[b - 1], 0);
            if ni < new.len() {
                let m = CrossFileMatch {
                    old_idx: (b - 1) as usize,
                    new_idx: ni as usize,
                    confidence: Ratio { num: 19, den: 20 },
                    match_type: CrossMatchType::ExactBody,
                };
                lemma_record_extends(st, m, true, true);
                lemma_extends_trans(phase_exact(old, new, a).found, st.found, phase_exact(old, new, b).found);
            }
        }
    }
}

proof fn lemma_name_grows(old: Seq<SymbolView>, new: Seq<SymbolView>, a: int, b: int)
    requires
        0 <= a <= b <= old.len(),
    ensures
        extends(phase_name(old, new, a).found, phase_name(old, new, b).found),
    decreases b - a,
{
    if a < b {
        lemma_name_grows(old, new, a, b - 1);
        let st = phase_name(old, new, b - 1);
        if !st.used_old[b - 1] {
            match best_same_name(new, st.used_new, old[b - 1], new.len() as int) {
                Some((ni, sim)) => {
                    let m = CrossFileMatch {
                        old_idx: (b - 1) as usize,
                        new_idx: ni as usize,
                        confidence: scaled(sim, 9, 10),
                        match_type: CrossMatchType::NameAndBody,
                    };
                    lemma_record_extends(st, m, true, true);
                    lemma_extends_trans(phase_name(old, new, a).found, st.found, phase_name(old, new, b).found);
                },
                None => {},
            }
        }
    }
}

proof fn lemma_assign_similar_grows(st: CrossState, sorted: Seq<(Ratio, (usize, usize))>)
    ensures
        extends(st.found, assign_similar(st, sorted).found),
    decreases sorted.len(),
{
    if sorted.len() > 0 {
        let init = sorted.drop_last();
        lemma_assign_similar_grows(st, init);
        let s = assign_similar(st, init);
        let c = sorted.last();
        if !s.used_old[c.1.0 as int] && !s.used_new[c.1.1 as int] {
            let m = CrossFileMatch {
                old_idx: c.1.0,
                new_idx: c.1.1,
                confidence: c.0,
                match_type: CrossMatchType::SimilarBody,
            };
            lemma_record_extends(s, m, true, true);
            lemma_extends_trans(st.found, s.found, assign_similar(st, sorted).found);
        }
    }
}

proof fn lemma_extract_row_grows(old: Seq<SymbolView>, new: Seq<SymbolView>, st: CrossState, oi: int, k: int)
    requires
        0 <= k <= new.len(),
    ensures
        extends(st.found, extract_row(old, new, st, oi, k).found),
    decreases k,
{
    if k > 0 {
        lemma_extract_row_grows(old, new, st, oi, k - 1);
        let s = extract_row(old, new, st, oi, k - 1);
        if !s.used_new[k - 1] && contained(new[k - 1].normalized_body, old[oi].normalized_body) {
            let m = CrossFileMatch {
                old_idx: oi as usize,
                new_idx: (k - 1) as usize,
                confidence: Ratio { num: 7, den: 10 },
                match_type: CrossMatchType::Extracted,
            };
            lemma_record_extends(s, m, false, true);
            lemma_extends_trans(st.found, s.found, extract_row(old, new, st, oi, k).found);
        }
    }
}

proof fn lemma_extract_grows(old: Seq<SymbolView>, new: Seq<SymbolView>, a: int, b: int)
    requires
        0 <= a <= b <= old.len(),
    ensures
        extends(phase_extract(old, new, a).found, phase_extract(old, new, b).found),
    decreases b - a,
{
    if a < b {
        lemma_extract_grows(old, new, a, b - 1);
        if bytes_len(old[b - 1].normalized_body) >= 50 {
            let s = phase_extract(old, new, b - 1);
            lemma_extract_row_grows(old, new, s, b - 1, new.len() as int);
            lemma_extends_trans(phase_extract(old, new, a).found, s.found, phase_extract(old, new, b).found);
        }
    }
}

/// Every state of the detection keeps its matches to the end.
proof fn lemma_phases_reach_end(old: Seq<SymbolView>, new: Seq<SymbolView>)
    requires
        old.len() <= usize::MAX,
        new.len() <= usize::MAX,
    ensures
        forall|i: int| 0 <= i <= old.len() ==> extends(#[trigger] phase_exact(old, new, i).found, cross_spec(old, new)),
        forall|i: int| 0 <= i <= old.len() ==> extends(#[trigger] phase_name(old, new, i).found, cross_spec(old, new)),
        extends(phase_similar(old, new).found, cross_spec(old, new)),
        forall|i: int| 0 <= i <= old.len() ==> extends(#[trigger] phase_extract(old, new, i).found, cross_spec(old, new)),
{
    let n = old.len() as int;
    let f = cross_spec(old, new);
    lemma_inline_steps(old, new, n);
    let e = phase_extract(old, new, n);
    let st = phase_name(old, new, n);
    let sorted = sort_desc(similar_list(old, new, st, n));
    lemma_assign_similar_grows(st, sorted);
    assert(phase_extract(old, new, 0) == phase_similar(old, new));
    lemma_extract_grows(old, new, 0, n);
    lemma_extends_trans(phase_similar(old, new).found, e.found, f);
    lemma_extends_trans(st.found, phase_similar(old, new).found, f);
    assert forall|i: int| 0 <= i <= old.len() implies extends(#[trigger] phase_extract(old, new, i).found, f) by {
        lemma_extract_grows(old, new, i, n);
        lemma_extends_trans(phase_extract(old, new, i).found, e.found, f);
    }
    assert forall|i: int| 0 <= i <= old.len() implies extends(#[trigger] phase_name(old, new, i).found, f) by {
        lemma_name_grows(old, new, i, n);
        lemma_extends_trans(phase_name(old, new, i).found, st.found, f);
    }
    assert(phase_name(old, new, 0) == phase_exact(old, new, n));
    assert forall|i: int| 0 <= i <= old.len() implies extends(#[trigger] phase_exact(old, new, i).found, f) by {
        lemma_exact_grows(old, new, i, n);
        lemma_extends_trans(phase_exact(old, new, i).found, phase_exact(old, new, n).found, f);
    }
}

proof fn lemma_first_exact_found(new: Seq<SymbolView>, used: Seq<bool>, o: SymbolView, k: int, j: int)
    requires
        0 <= k <= j < new.len(),
        exact_body_fits(o, new[j], used[j]),
    ensures
        first_exact(new, used, o, k) < new.len(),
    decreases j - k,
{
    if k < j && !exact_body_fits(o, new[k], used[k]) {
        lemma_first_exact_found(new, used, o, k + 1, j);
    }
}

/// Moves of unchanged bodies are found: when an old and a new symbol of
/// the same kind, in different files, have the same body, the detection
/// takes at least one of them (the old one by a move, or the new one by a
/// match other than an inlining).
pub proof fn lemma_exact_moves_complete(old: Seq<SymbolView>, new: Seq<SymbolView>, i: int, j: int)
    requires
        old.len() <= usize::MAX,
        new.len() <= usize::MAX,
        0 <= i < old.len(),
        0 <= j < new.len(),
        old[i].body_hash == new[j].body_hash,
        old[i].kind == new[j].kind,
        old[i].file_path != new[j].file_path,
    ensures
        claims_old(cross_spec(old, new), i) || claims_new(cross_spec(old, new), j),
{
    let f = cross_spec(old, new);
    lemma_phases_reach_end(old, new);
    lemma_exact_backed(old, new, i);
    let st = phase_exact(old, new, i);
    assert(extends(st.found, f));
    lemma_extends_claims(st.found, f, i);
    lemma_extends_claims(st.found, f, j);
    if !st.used_old[i] && !st.used_new[j] {
        lemma_first_exact_found(new, st.used_new, old[i], 0, j);
        lemma_first_exact(new, st.used_new, old[i], 0);
        let ni = first_exact(new, st.used_new, old[i], 0);
        let m = CrossFileMatch {
            old_idx: i as usize,
            new_idx: ni as usize,
            confidence: Ratio { num: 19, den: 20 },
            match_type: CrossMatchType::ExactBody,
        };
        lemma_record_extends(st, m, true, true);
        let nx = phase_exact(old, new, i + 1);
        assert(nx.found.contains(m));
        assert(extends(nx.found, f));
        let k = choose|k: int| 0 <= k < nx.found.len() && nx.found[k] == m;
        assert(f[k] == m);
        assert(claims_old(f, i));
    }
}

/// Extractions are found: when a new symbol's body lies within an old
/// symbol's body (as `contained` measures it, the old body at least 50
/// bytes long), the detection takes the new symbol with a match other than
/// an inlining.
pub proof fn lemma_extract_complete(old: Seq<SymbolView>, new: Seq<SymbolView>, i: int, j: int)
    requires
        old.len() <= usize::MAX,
        new.len() <= usize::MAX,
        0 <= i < old.len(),
        0 <= j < new.len(),
        contained(new[j].normalized_body, old[i].normalized_body),
    ensures
        claims_new(cross_spec(old, new), j),
{
    let f = cross_spec(old, new);
    lemma_phases_reach_end(old, new);
    lemma_extract_backed(old, new, i);
    let s = phase_extract(old, new, i);
    lemma_extract_row_facts(old, new, s, i, new.len() as int);
    let r = phase_extract(old, new, i + 1);
    assert(r == extract_row(old, new, s, i, new.len() as int));
    lemma_extract_backed(old, new, i + 1);
    assert(r.used_new[j]);
    lemma_extends_claims(r.found, f, j);
}

proof fn lemma_extract_row_facts(old: Seq<SymbolView>, new: Seq<SymbolView>, st: CrossState, oi: int, k: int)
    requires
        new.len() <= usize::MAX,
        0 <= oi < old.len(),
        0 <= k <= new.len(),
        st.used_new.len() == new.len(),
    ensures
        extract_row(old, new, st, oi, k).used_new.len() == new.len(),
        forall|j: int| 0 <= j < new.len() && #[trigger] st.used_new[j] ==> extract_row(old, new, st, oi, k).used_new[j],
        forall|j: int|
            0 <= j < k && contained(new[j].normalized_body, old[oi].normalized_body)
                ==> #[trigger] extract_row(old, new, st, oi, k).used_new[j],
    decreases k,
{
    if k > 0 {
        lemma_extract_row_facts(old, new, st, oi, k - 1);
        let s = extract_row(old, new, st, oi, k - 1);
        let r = extract_row(old, new, st, oi, k);
        assert forall|j: int| 0 <= j < new.len() && #[trigger] s.used_new[j] implies r.used_new[j] by {}
        assert forall|j: int|
            0 <= j < k && contained(new[j].normalized_body, old[oi].normalized_body) implies #[trigger] r.used_new[j] by {
            if j < k - 1 {
                assert(s.used_new[j]);
            }
        }
    }
}


proof fn lemma_best_some(new: Seq<SymbolView>, used: Seq<bool>, o: SymbolView, k: int, j: int)
    requires
        0 <= j < k <= new.len(),
        same_name_fits(o, new[j], used[j]),
        body_similarity_spec(o, new[j]).above(1, 2),
    ensures
        best_same_name(new, used, o, k) is Some,
    decreases k,
{
    if k - 1 > j {
        lemma_best_some(new, used, o, k - 1, j);
    }
}

/// Moves under the same name are found: when an old and a new symbol of
/// the same name and kind, in different files, have bodies more than half
/// alike, the detection takes at least one of them (the old one by a move,
/// or the new one by a match other than an inlining).
pub proof fn lemma_name_moves_complete(old: Seq<SymbolView>, new: Seq<SymbolView>, i: int, j: int)
    requires
        old.len() <= usize::MAX,
        new.len() <= usize::MAX,
        0 <= i < old.len(),
        0 <= j < new.len(),
        old[i].name == new[j].name,
        old[i].kind == new[j].kind,
        old[i].file_path != new[j].file_path,
        body_similarity_spec(old[i], new[j]).above(1, 2),
    ensures
        claims_old(cross_spec(old, new), i) || claims_new(cross_spec(old, new), j),
{
    let f = cross_spec(old, new);
    lemma_phases_reach_end(old, new);
    lemma_name_backed(old, new, i);
    let st = phase_name(old, new, i);
    assert(extends(st.found, f));
    lemma_extends_claims(st.found, f, i);
    lemma_extends_claims(st.found, f, j);
    if !st.used_old[i] && !st.used_new[j] {
        lemma_best_some(new, st.used_new, old[i], new.len() as int, j);
        match best_same_name(new, st.used_new, old[i], new.len() as int) {
            Some((ni, sim)) => {
                let m = CrossFileMatch {
                    old_idx: i as usize,
                    new_idx: ni as usize,
                    confidence: scaled(sim, 9, 10),
                    match_type: CrossMatchType::NameAndBody,
                };
                lemma_record_extends(st, m, true, true);
                let nx = phase_name(old, new, i + 1);
                assert(nx.found.contains(m));
                assert(extends(nx.found, f));
                let k = choose|k: int| 0 <= k < nx.found.len() && nx.found[k] == m;
                assert(f[k] == m);
                assert(claims_old(f, i));
            },
            None => {},
        }
    }
}

proof fn lemma_insert_desc_has<T>(s: Seq<(Ratio, T)>, x: (Ratio, T))
    ensures
        insert_desc(s, x).contains(x),
        forall|y: (Ratio, T)| s.contains(y) ==> insert_desc(s, x).contains(y),
    decreases s.len(),
{
    let r = insert_desc(s, x);
    if s.len() == 0 {
        assert(r[0] == x);
    } else if s[0].0.lt(x.0) {
        assert(r[0] == x);
        assert forall|y: (Ratio, T)| s.contains(y) implies r.contains(y) by {
            let k = choose|k: int| 0 <= k < s.len() && s[k] == y;
            assert(r[k + 1] == y);
        }
    } else {
        let t = s.drop_first();
        lemma_insert_desc_has(t, x);
        let q = insert_desc(t, x);
        assert(r == seq![s[0]] + q);
        let a = choose|a: int| 0 <= a < q.len() && q[a] == x;
        assert(r[a + 1] == x);
        assert forall|y: (Ratio, T)| s.contains(y) implies r.contains(y) by {
            let k = choose|k: int| 0 <= k < s.len() && s[k] == y;
            if k == 0 {
                assert(r[0] == y);
            } else {
                assert(t[k - 1] == y);
                assert(t.contains(y));
                assert(q.contains(y));
                let b = choose|b: int| 0 <= b < q.len() && q[b] == y;
                assert(r[b + 1] == y);
            }
        }
    }
}

proof fn lemma_sort_desc_has<T>(items: Seq<(Ratio, T)>)
    ensures
        forall|y: (Ratio, T)| items.contains(y) ==> sort_desc(items).contains(y),
    decreases items.len(),
{
    if items.len() > 0 {
        let init = items.drop_last();
        lemma_sort_desc_has(init);
        lemma_insert_desc_has(sort_desc(init), items.last());
        assert(sort_desc(items) == insert_desc(sort_desc(init), items.last()));
        assert forall|y: (Ratio, T)| items.contains(y) implies sort_desc(items).contains(y) by {
            let k = choose|k: int| 0 <= k < items.len() && items[k] == y;
            if k < items.len() - 1 {
                assert(init[k] == y);
                assert(init.contains(y));
                assert(sort_desc(init).contains(y));
            }
        }
    }
}

proof fn lemma_similar_row_has(old: Seq<SymbolView>, new: Seq<SymbolView>, st: CrossState, oi: int, k: int, j: int)
    requires
        0 <= j < k <= new.len(),
        similar_fits(old, new, st, oi, j),
        oi <= usize::MAX,
        new.len() <= usize::MAX,
    ensures
        similar_row(old, new, st, oi, k).contains(
            (scaled(body_similarity_spec(old[oi], new[j]), 17, 20), (oi as usize, j as usize)),
        ),
    decreases k,
{
    let r = similar_row(old, new, st, oi, k);
    if k - 1 == j {
        assert(r[r.len() - 1] == (scaled(body_similarity_spec(old[oi], new[j]), 17, 20), (oi as usize, j as usize)));
    } else {
        lemma_similar_row_has(old, new, st, oi, k - 1, j);
        let p = similar_row(old, new, st, oi, k - 1);
        let x = (scaled(body_similarity_spec(old[oi], new[j]), 17, 20), (oi as usize, j as usize));
        let a = choose|a: int| 0 <= a < p.len() && p[a] == x;
        assert(r[a] == x);
    }
}

proof fn lemma_similar_list_has(
    old: Seq<SymbolView>,
    new: Seq<SymbolView>,
    st: CrossState,
    i: int,
    oi: int,
    j: int,
)
    requires
        0 <= oi < i <= old.len(),
        0 <= j < new.len(),
        similar_fits(old, new, st, oi, j),
        old.len() <= usize::MAX,
        new.len() <= usize::MAX,
    ensures
        similar_list(old, new, st, i).contains(
            (scaled(body_similarity_spec(old[oi], new[j]), 17, 20), (oi as usize, j as usize)),
        ),
    decreases i,
{
    let x = (scaled(body_similarity_spec(old[oi], new[j]), 17, 20), (oi as usize, j as usize));
    let a = similar_list(old, new, st, i - 1);
    let b = similar_row(old, new, st, i - 1, new.len() as int);
    if oi == i - 1 {
        lemma_similar_row_has(old, new, st, oi, new.len() as int, j);
        let k = choose|k: int| 0 <= k < b.len() && b[k] == x;
        assert((a + b)[a.len() + k] == x);
    } else {
        lemma_similar_list_has(old, new, st, i - 1, oi, j);
        let k = choose|k: int| 0 <= k < a.len() && a[k] == x;
        assert((a + b)[k] == x);
    }
}

proof fn lemma_assign_similar_covers(
    old: Seq<SymbolView>,
    new: Seq<SymbolView>,
    st: CrossState,
    sorted: Seq<(Ratio, (usize, usize))>,
)
    requires
        st.used_old.len() == old.len(),
        st.used_new.len() == new.len(),
        forall|k: int| 0 <= k < sorted.len() ==> #[trigger] similar_ok(old, new, sorted[k]),
    ensures
        assign_similar(st, sorted).used_old.len() == old.len(),
        assign_similar(st, sorted).used_new.len() == new.len(),
        forall|i: int| 0 <= i < old.len() && #[trigger] st.used_old[i] ==> assign_similar(st, sorted).used_old[i],
        forall|j: int| 0 <= j < new.len() && #[trigger] st.used_new[j] ==> assign_similar(st, sorted).used_new[j],
        forall|k: int|
            0 <= k < sorted.len() ==> assign_similar(st, sorted).used_old[(#[trigger] sorted[k]).1.0 as int]
                || assign_similar(st, sorted).used_new[sorted[k].1.1 as int],
    decreases sorted.len(),
{
    if sorted.len() > 0 {
        let init = sorted.drop_last();
        assert forall|k: int| 0 <= k < init.len() implies #[trigger] similar_ok(old, new, init[k]) by {
            assert(init[k] == sorted[k]);
        }
        lemma_assign_similar_covers(old, new, st, init);
        let s = assign_similar(st, init);
        let r = assign_similar(st, sorted);
        let c = sorted.last();
        assert(similar_ok(old, new, sorted[sorted.len() - 1]));
        assert forall|i: int| 0 <= i < old.len() && #[trigger] s.used_old[i] implies r.used_old[i] by {}
        assert forall|j: int| 0 <= j < new.len() && #[trigger] s.used_new[j] implies r.used_new[j] by {}
        assert forall|k: int|
            0 <= k < sorted.len() implies r.used_old[(#[trigger] sorted[k]).1.0 as int] || r.used_new[sorted[k].1.1 as int] by {
            if k < init.len() {
                assert(init[k] == sorted[k]);
                assert(similar_ok(old, new, sorted[k]));
                if s.used_old[sorted[k].1.0 as int] {
                    assert(r.used_old[sorted[k].1.0 as int]);
                } else {
                    assert(s.used_new[sorted[k].1.1 as int]);
                    assert(r.used_new[sorted[k].1.1 as int]);
                }
            }
        }
    }
}

/// Moves with similar bodies are found: when an old and a new symbol of the
/// same kind, in different files, have bodies at least seven tenths alike,
/// the detection takes at least one of them (the old one by a move, or the
/// new one by a match other than an inlining).
pub proof fn lemma_similar_moves_complete(old: Seq<SymbolView>, new: Seq<SymbolView>, i: int, j: int)
    requires
        old.len() <= usize::MAX,
        new.len() <= usize::MAX,
        0 <= i < old.len(),
        0 <= j < new.len(),
        old[i].kind == new[j].kind,
        old[i].file_path != new[j].file_path,
        body_similarity_spec(old[i], new[j]).at_least(7, 10),
    ensures
        claims_old(cross_spec(old, new), i) || claims_new(cross_spec(old, new), j),
{
    let n = old.len() as int;
    let f = cross_spec(old, new);
    lemma_phases_reach_end(old, new);
    let st = phase_name(old, new, n);
    lemma_name_backed(old, new, n);
    lemma_similar_list_ok(old, new, st, n);
    let c = similar_list(old, new, st, n);
    lemma_sort_desc_all(c, |x: (Ratio, (usize, usize))| similar_ok(old, new, x));
    let sorted = sort_desc(c);
    assert forall|k: int| 0 <= k < sorted.len() implies #[trigger] similar_ok(old, new, sorted[k]) by {
        assert((|x: (Ratio, (usize, usize))| similar_ok(old, new, x))(sorted[k]));
    }
    lemma_assign_similar_covers(old, new, st, sorted);
    let ps = phase_similar(old, new);
    assert(ps == assign_similar(st, sorted));
    lemma_extract_backed(old, new, 0);
    assert(phase_extract(old, new, 0) == ps);
    lemma_extends_claims(ps.found, f, i);
    lemma_extends_claims(ps.found, f, j);
    if !st.used_old[i] && !st.used_new[j] {
        assert(similar_fits(old, new, st, i, j));
        lemma_similar_list_has(old, new, st, n, i, j);
        lemma_sort_desc_has(c);
        let x = (scaled(body_similarity_spec(old[i], new[j]), 17, 20), (i as usize, j as usize));
        let k = choose|k: int| 0 <= k < sorted.len() && sorted[k] == x;
        assert(ps.used_old[sorted[k].1.0 as int] || ps.used_new[sorted[k].1.1 as int]);
    }
}

// ---------------------------------------------------------------- exec

pub open spec fn cross_state(used_old: Seq<bool>, used_new: Seq<bool>, found: Seq<CrossFileMatch>) -> CrossState {
    CrossState { used_old, used_new, found }
}

/// Every match names an old and a new symbol that exist.
pub open spec fn found_in_range(f: Seq<CrossFileMatch>, n_old: nat, n_new: nat) -> bool {
    forall|k: int| 0 <= k < f.len() ==> (#[trigger] f[k]).old_idx < n_old && f[k].new_idx < n_new
}

pub open spec fn opt_index(o: Option<(int, Ratio)>) -> Option<(usize, Ratio)> {
    match o {
        Some((i, r)) => Some((i as usize, r)),
        None => None,
    }
}

fn falses(n: usize) -> (r: Vec<bool>)
    ensures
        r@ == Seq::new(n as nat, |i: int| false),
{
    let mut v: Vec<bool> = Vec::new();
    let mut i: usize = 0;
    while i < n
        invariant
            i <= n,
            v@ == Seq::new(i as nat, |k: int| false),
        decreases n - i,
    {
        v.push(false);
        i = i + 1;
        assert(v@ =~= Seq::new(i as nat, |k: int| false));
    }
    v
}

fn find_exact(new: &[Symbol], used: &Vec<bool>, o: &Symbol) -> (r: usize)
    requires
        used@.len() == new@.len(),
    ensures
        r as int == first_exact(syms_view(new@), used@, o@, 0),
{
    let ghost nv = syms_view(new@);
    let mut k: usize = 0;
    while k < new.len()
        invariant
            k <= new.len(),
            used@.len() == new@.len(),
            nv == syms_view(new@),
            first_exact(nv, used@, o@, 0) == first_exact(nv, used@, o@, k as int),
        decreases new.len() - k,
    {
        if !used[k] && hash_eq(&new[k].body_hash, &o.body_hash) && new[k].kind == o.kind && !(
        new[k].file_path == o.file_path) {
            return k;
        }
        k = k + 1;
    }
    k
}

/// A similarity scaled by `p / q`, both small.
fn scale(r: Ratio, p: u64, q: u64) -> (s: Ratio)
    requires
        r.num <= r.den,
        r.den < 0x2000_0000,
        1 <= q <= 20,
        p <= 20,
        r.wf(),
    ensures
        s == scaled(r, p as int, q as int),
        s.wf(),
{
    assert(r.num * p <= 0x2000_0000 * 20) by (nonlinear_arith)
        requires
            r.num < 0x2000_0000,
            p <= 20,
    ;
    assert(r.den * q <= 0x2000_0000 * 20) by (nonlinear_arith)
        requires
            r.den < 0x2000_0000,
            q <= 20,
    ;
    assert(r.den * q > 0) by (nonlinear_arith)
        requires
            r.den > 0,
            q >= 1,
    ;
    Ratio { num: r.num * p, den: r.den * q }
}

fn best_by_name(new: &[Symbol], used: &Vec<bool>, o: &Symbol) -> (r: Option<(usize, Ratio)>)
    requires
        used@.len() == new@.len(),
        all_comparable(new@),
        o@.wf(),
        o@.comparable(),
    ensures
        r == opt_index(best_same_name(syms_view(new@), used@, o@, new@.len() as int)),
        r matches Some((i, s)) ==> i < new@.len() && s.wf() && s.num <= s.den && s.den < 0x2000_0000,
{
    let ghost nv = syms_view(new@);
    let mut best: Option<(usize, Ratio)> = None;
    let mut k: usize = 0;
    while k < new.len()
        invariant
            k <= new.len(),
            used@.len() == new@.len(),
            nv == syms_view(new@),
            all_comparable(new@),
            o@.wf(),
            o@.comparable(),
            best == opt_index(best_same_name(nv, used@, o@, k as int)),
            best matches Some((i, s)) ==> i < k && s.wf() && s.num <= s.den && s.den < 0x2000_0000,
        decreases new.len() - k,
    {
        let n = &new[k];
        assert(nv[k as int] == n@);
        if !used[k] && n.name == o.name && n.kind == o.kind && !(n.file_path == o.file_path) {
            assert(new@[k as int]@.wf() && new@[k as int]@.comparable());
            let sim = o.body_similarity(n);
            proof {
                lemma_similarity_small(o@, n@);
            }
            if sim.exceeds(1, 2) {
                let better = match best {
                    None => true,
                    Some((_, b)) => b.less_than(&sim),
                };
                if better {
                    best = Some((k, sim));
                }
            }
        }
        k = k + 1;
    }
    best
}

/// Whether `inner` lies within `outer`, both long enough, with more than
/// 3/20 of its byte length.
fn contained_in(inner: &str, outer: &str) -> (r: bool)
    ensures
        r == contained(inner@, outer@),
{
    let lo = byte_len(outer);
    let li = byte_len(inner);
    if lo < 50 || li < 20 {
        return false;
    }
    let oc = chars_of(outer);
    let ic = chars_of(inner);
    if !contains_chars(oc.as_slice(), ic.as_slice()) {
        return false;
    }
    (li as u128) * 20 > 3 * (lo as u128)
}

proof fn lemma_similar_row_wf(
    old: Seq<SymbolView>,
    new: Seq<SymbolView>,
    st: CrossState,
    oi: int,
    k: int,
)
    requires
        0 <= oi < old.len(),
        0 <= k <= new.len(),
        old.len() <= usize::MAX,
        new.len() <= usize::MAX,
        old[oi].wf(),
        old[oi].comparable(),
        forall|j: int| 0 <= j < new.len() ==> (#[trigger] new[j]).wf() && new[j].comparable(),
    ensures
        all_wf(similar_row(old, new, st, oi, k)),
        forall|j: int|
            0 <= j < similar_row(old, new, st, oi, k).len() ==> (#[trigger] similar_row(
                old,
                new,
                st,
                oi,
                k,
            )[j]).1.0 == oi && similar_row(old, new, st, oi, k)[j].1.1 < new.len(),
    decreases k,
{
    if k > 0 {
        lemma_similar_row_wf(old, new, st, oi, k - 1);
        lemma_similarity_small(old[oi], new[k - 1]);
        let b = body_similarity_spec(old[oi], new[k - 1]);
        assert(b.den * 20 > 0) by (nonlinear_arith)
            requires
                b.den > 0,
        ;
        assert(b.den * 20 <= 0x2000_0000 * 20) by (nonlinear_arith)
            requires
                b.den < 0x2000_0000,
        ;
    }
}

/// Detects moves, extractions and inlines among symbols left unmatched
/// within their files: equal bodies in another file; the same name with a
/// similar body (best one); a very similar body (best first); a new body
/// contained in an old one; an old body contained in a new one.
#[verifier::rlimit(40)]
pub fn detect_cross_file_moves(unmatched_old: &[Symbol], unmatched_new: &[Symbol]) -> (r: Vec<
    CrossFileMatch,
>)
    requires
        all_comparable(unmatched_old@),
        all_comparable(unmatched_new@),
    ensures
        r@ == cross_spec(syms_view(unmatched_old@), syms_view(unmatched_new@)),
        found_in_range(r@, unmatched_old@.len(), unmatched_new@.len()),
{
    let ghost ov = syms_view(unmatched_old@);
    let ghost nv = syms_view(unmatched_new@);
    let n_old = unmatched_old.len();
    let n_new = unmatched_new.len();
    let mut used_old = falses(n_old);
    let mut used_new = falses(n_new);
    let mut found: Vec<CrossFileMatch> = Vec::new();
    let mut oi: usize = 0;
    while oi < n_old
        invariant
            oi <= n_old,
            n_old == unmatched_old.len(),
            n_new == unmatched_new.len(),
            ov == syms_view(unmatched_old@),
            nv == syms_view(unmatched_new@),
            used_old@.len() == n_old,
            used_new@.len() == n_new,
            found_in_range(found@, n_old as nat, n_new as nat),
            cross_state(used_old@, used_new@, found@) == phase_exact(ov, nv, oi as int),
        decreases n_old - oi,
    {
        if !used_old[oi] {
            let ni = find_exact(unmatched_new, &used_new, &unmatched_old[oi]);
            if ni < n_new {
                found.push(
                    CrossFileMatch {
                        old_idx: oi,
                        new_idx: ni,
                        confidence: Ratio { num: 19, den: 20 },
                        match_type: CrossMatchType::ExactBody,
                    },
                );
                used_old.set(oi, true);
                used_new.set(ni, true);
            }
        }
        oi = oi + 1;
    }
    let mut oi: usize = 0;
    while oi < n_old
        invariant
            oi <= n_old,
            n_old == unmatched_old.len(),
            n_new == unmatched_new.len(),
            ov == syms_view(unmatched_old@),
            nv == syms_view(unmatched_new@),
            all_comparable(unmatched_old@),
            all_comparable(unmatched_new@),
            used_old@.len() == n_old,
            used_new@.len() == n_new,
            found_in_range(found@, n_old as nat, n_new as nat),
            cross_state(used_old@, used_new@, found@) == phase_name(ov, nv, oi as int),
        decreases n_old - oi,
    {
        if !used_old[oi] {
            assert(unmatched_old@[oi as int]@.wf() && unmatched_old@[oi as int]@.comparable());
            let best = best_by_name(unmatched_new, &used_new, &unmatched_old[oi]);
            match best {
                Some((ni, sim)) => {
                    let conf = scale(sim, 9, 10);
                    found.push(
                        CrossFileMatch {
                            old_idx: oi,
                            new_idx: ni,
                            confidence: conf,
                            match_type: CrossMatchType::NameAndBody,
                        },
                    );
                    used_old.set(oi, true);
                    used_new.set(ni, true);
                },
                None => {},
            }
        }
        oi = oi + 1;
    }
    let ghost st2 = cross_state(used_old@, used_new@, found@);
    let mut cands: Vec<(Ratio, (usize, usize))> = Vec::new();
    let mut oi: usize = 0;
    while oi < n_old
        invariant
            oi <= n_old,
            n_old == unmatched_old.len(),
            n_new == unmatched_new.len(),
            ov == syms_view(unmatched_old@),
            nv == syms_view(unmatched_new@),
            all_comparable(unmatched_old@),
            all_comparable(unmatched_new@),
            used_old@.len() == n_old,
            used_new@.len() == n_new,
            found_in_range(found@, n_old as nat, n_new as nat),
            st2 == cross_state(used_old@, used_new@, found@),
            cands@ == similar_list(ov, nv, st2, oi as int),
        decreases n_old - oi,
    {
        let mut ni: usize = 0;
        while ni < n_new
            invariant
                oi < n_old,
                ni <= n_new,
                n_old == unmatched_old.len(),
                n_new == unmatched_new.len(),
                ov == syms_view(unmatched_old@),
                nv == syms_view(unmatched_new@),
                all_comparable(unmatched_old@),
                all_comparable(unmatched_new@),
                used_old@.len() == n_old,
                used_new@.len() == n_new,
            found_in_range(found@, n_old as nat, n_new as nat),
                st2 == cross_state(used_old@, used_new@, found@),
                cands@ == similar_list(ov, nv, st2, oi as int) + similar_row(
                    ov,
                    nv,
                    st2,
                    oi as int,
                    ni as int,
                ),
            decreases n_new - ni,
        {
            let o = &unmatched_old[oi];
            let n = &unmatched_new[ni];
            let ghost prev = cands@;
            if !used_old[oi] && !used_new[ni] && o.kind == n.kind && !(o.file_path == n.file_path) {
                assert(unmatched_old@[oi as int]@.wf() && unmatched_old@[oi as int]@.comparable());
                assert(unmatched_new@[ni as int]@.wf() && unmatched_new@[ni as int]@.comparable());
                let sim = o.body_similarity(n);
                proof {
                    lemma_similarity_small(o@, n@);
                }
                if sim.reaches(7, 10) {
                    let conf = scale(sim, 17, 20);
                    cands.push((conf, (oi, ni)));
                }
            }
            proof {
                assert(ov[oi as int] == o@);
                assert(nv[ni as int] == n@);
                assert(cands@ =~= similar_list(ov, nv, st2, oi as int) + similar_row(
                    ov,
                    nv,
                    st2,
                    oi as int,
                    ni + 1,
                ));
            }
            ni = ni + 1;
        }
        oi = oi + 1;
    }
    proof {
        lemma_similar_list_wf(ov, nv, st2, n_old as int);
        lemma_sort_desc_len(cands@);
        lemma_sort_desc_all(
            cands@,
            |x: (Ratio, (usize, usize))| x.1.0 < n_old && x.1.1 < n_new,
        );
    }
    let sorted = sort_by_score_desc(cands);
    let ghost sv = sorted@;
    let mut j: usize = 0;
    while j < sorted.len()
        invariant
            j <= sorted.len(),
            sv == sorted@,
            forall|k: int| 0 <= k < sv.len() ==> (#[trigger] sv[k]).1.0 < n_old && sv[k].1.1 < n_new,
            used_old@.len() == n_old,
            used_new@.len() == n_new,
            found_in_range(found@, n_old as nat, n_new as nat),
            cross_state(used_old@, used_new@, found@) == assign_similar(st2, sv.take(j as int)),
        decreases sorted.len() - j,
    {
        let (conf, (o, n)) = sorted[j];
        proof {
            assert(sv.take(j + 1).drop_last() =~= sv.take(j as int));
            assert(sv[j as int].1.0 < n_old && sv[j as int].1.1 < n_new);
        }
        if !used_old[o] && !used_new[n] {
            found.push(
                CrossFileMatch {
                    old_idx: o,
                    new_idx: n,
                    confidence: conf,
                    match_type: CrossMatchType::SimilarBody,
                },
            );
            used_old.set(o, true);
            used_new.set(n, true);
        }
        j = j + 1;
    }
    proof {
        assert(sv.take(sorted.len() as int) =~= sv);
    }
    // Phase 4: new bodies contained in old bodies
    let mut oi: usize = 0;
    while oi < n_old
        invariant
            oi <= n_old,
            n_old == unmatched_old.len(),
            n_new == unmatched_new.len(),
            ov == syms_view(unmatched_old@),
            nv == syms_view(unmatched_new@),
            used_old@.len() == n_old,
            used_new@.len() == n_new,
            found_in_range(found@, n_old as nat, n_new as nat),
            cross_state(used_old@, used_new@, found@) == phase_extract(ov, nv, oi as int),
        decreases n_old - oi,
    {
        let o = &unmatched_old[oi];
        assert(ov[oi as int] == o@);
        if byte_len(o.normalized_body.as_str()) >= 50 {
            let ghost s0 = cross_state(used_old@, used_new@, found@);
            let mut ni: usize = 0;
            while ni < n_new
                invariant
                    oi < n_old,
                    ni <= n_new,
                    n_old == unmatched_old.len(),
                    n_new == unmatched_new.len(),
                    ov == syms_view(unmatched_old@),
                    nv == syms_view(unmatched_new@),
                    ov[oi as int] == o@,
                    used_old@.len() == n_old,
                    used_new@.len() == n_new,
                    found_in_range(found@, n_old as nat, n_new as nat),
                    cross_state(used_old@, used_new@, found@) == extract_row(
                        ov,
                        nv,
                        s0,
                        oi as int,
                        ni as int,
                    ),
                decreases n_new - ni,
            {
                let n = &unmatched_new[ni];
                assert(nv[ni as int] == n@);
                if !used_new[ni] && contained_in(n.normalized_body.as_str(), o.normalized_body.as_str()) {
                    found.push(
                        CrossFileMatch {
                            old_idx: oi,
                            new_idx: ni,
                            confidence: Ratio { num: 7, den: 10 },
                            match_type: CrossMatchType::Extracted,
                        },
                    );
                    used_new.set(ni, true);
                }
                ni = ni + 1;
            }
        }
        oi = oi + 1;
    }
    // Phase 5: old bodies contained in new bodies
    let mut oi: usize = 0;
    while oi < n_old
        invariant
            oi <= n_old,
            n_old == unmatched_old.len(),
            n_new == unmatched_new.len(),
            ov == syms_view(unmatched_old@),
            nv == syms_view(unmatched_new@),
            used_old@.len() == n_old,
            used_new@.len() == n_new,
            found_in_range(found@, n_old as nat, n_new as nat),
            cross_state(used_old@, used_new@, found@) == phase_inline(ov, nv, oi as int),
        decreases n_old - oi,
    {
        let o = &unmatched_old[oi];
        assert(ov[oi as int] == o@);
        if !used_old[oi] && byte_len(o.normalized_body.as_str()) >= 20 {
            let ghost s0 = cross_state(used_old@, used_new@, found@);
            let mut ni: usize = 0;
            while ni < n_new
                invariant
                    oi < n_old,
                    ni <= n_new,
                    n_old == unmatched_old.len(),
                    n_new == unmatched_new.len(),
                    ov == syms_view(unmatched_old@),
                    nv == syms_view(unmatched_new@),
                    ov[oi as int] == o@,
                    used_old@.len() == n_old,
                    used_new@.len() == n_new,
                    found_in_range(found@, n_old as nat, n_new as nat),
                    cross_state(used_old@, used_new@, found@) == inline_row(
                        ov,
                        nv,
                        s0,
                        oi as int,
                        ni as int,
                    ),
                decreases n_new - ni,
            {
                let n = &unmatched_new[ni];
                assert(nv[ni as int] == n@);
                if !used_new[ni] && contained_in(o.normalized_body.as_str(), n.normalized_body.as_str()) {
                    found.push(
                        CrossFileMatch {
                            old_idx: oi,
                            new_idx: ni,
                            confidence: Ratio { num: 13, den: 20 },
                            match_type: CrossMatchType::Inlined,
                        },
                    );
                    used_old.set(oi, true);
                }
                ni = ni + 1;
            }
        }
        oi = oi + 1;
    }
    found
}

proof fn lemma_similar_list_wf(old: Seq<SymbolView>, new: Seq<SymbolView>, st: CrossState, i: int)
    requires
        0 <= i <= old.len(),
        old.len() <= usize::MAX,
        new.len() <= usize::MAX,
        forall|j: int| 0 <= j < old.len() ==> (#[trigger] old[j]).wf() && old[j].comparable(),
        forall|j: int| 0 <= j < new.len() ==> (#[trigger] new[j]).wf() && new[j].comparable(),
    ensures
        all_wf(similar_list(old, new, st, i)),
        forall|j: int|
            0 <= j < similar_list(old, new, st, i).len() ==> (#[trigger] similar_list(
                old,
                new,
                st,
                i,
            )[j]).1.0 < old.len() && similar_list(old, new, st, i)[j].1.1 < new.len(),
    decreases i,
{
    if i > 0 {
        lemma_similar_list_wf(old, new, st, i - 1);
        lemma_similar_row_wf(old, new, st, i - 1, new.len() as int);
        let a = similar_list(old, new, st, i - 1);
        let b = similar_row(old, new, st, i - 1, new.len() as int);
        assert forall|j: int| 0 <= j < (a + b).len() implies (#[trigger] (a + b)[j]).0.wf() && (a
            + b)[j].1.0 < old.len() && (a + b)[j].1.1 < new.len() by {
            if j < a.len() {
                assert((a + b)[j] == a[j]);
            } else {
                assert((a + b)[j] == b[j - a.len()]);
            }
        }
    }
}

} // verus!
