//! Stable ordering of scored items, best score first (as `sort_by` with a
//! descending comparison orders them).
use vstd::prelude::*;

use crate::ratio::Ratio;

verus! {

/// Inserts `x` after every item whose score is at least `x`'s, and before
/// the first item with a lower score.
pub open spec fn insert_desc<T>(sorted: Seq<(Ratio, T)>, x: (Ratio, T)) -> Seq<(Ratio, T)>
    decreases sorted.len(),
{
    if sorted.len() == 0 {
        seq![x]
    } else if sorted[0].0.lt(x.0) {
        seq![x] + sorted
    } else {
        seq![sorted[0]] + insert_desc(sorted.drop_first(), x)
    }
}

/// The items ordered by descending score; items with equal scores keep
/// their relative order.
pub open spec fn sort_desc<T>(items: Seq<(Ratio, T)>) -> Seq<(Ratio, T)>
    decreases items.len(),
{
    if items.len() == 0 {
        Seq::empty()
    } else {
        insert_desc(sort_desc(items.drop_last()), items.last())
    }
}

pub open spec fn all_wf<T>(items: Seq<(Ratio, T)>) -> bool {
    forall|i: int| 0 <= i < items.len() ==> (#[trigger] items[i]).0.wf()
}

pub(crate) proof fn lemma_insert_desc_at<T>(sorted: Seq<(Ratio, T)>, x: (Ratio, T), p: int)
    requires
        0 <= p <= sorted.len(),
        forall|k: int| 0 <= k < p ==> !(#[trigger] sorted[k]).0.lt(x.0),
        p < sorted.len() ==> sorted[p].0.lt(x.0),
    ensures
        insert_desc(sorted, x) == sorted.take(p) + seq![x] + sorted.skip(p),
    decreases sorted.len(),
{
    if sorted.len() == 0 {
        assert(sorted.take(p) + seq![x] + sorted.skip(p) =~= seq![x]);
    } else if p == 0 {
        assert(sorted.take(p) + seq![x] + sorted.skip(p) =~= seq![x] + sorted);
    } else {
        let rest = sorted.drop_first();
        assert forall|k: int| 0 <= k < p - 1 implies !(#[trigger] rest[k]).0.lt(x.0) by {
            assert(rest[k] == sorted[k + 1]);
        }
        lemma_insert_desc_at(rest, x, p - 1);
        assert(seq![sorted[0]] + (rest.take(p - 1) + seq![x] + rest.skip(p - 1)) =~= sorted.take(p)
            + seq![x] + sorted.skip(p));
    }
}

proof fn lemma_insert_desc_len<T>(sorted: Seq<(Ratio, T)>, x: (Ratio, T))
    ensures
        insert_desc(sorted, x).len() == sorted.len() + 1,
    decreases sorted.len(),
{
    if sorted.len() > 0 && !sorted[0].0.lt(x.0) {
        lemma_insert_desc_len(sorted.drop_first(), x);
    }
}

pub proof fn lemma_sort_desc_len<T>(items: Seq<(Ratio, T)>)
    ensures
        sort_desc(items).len() == items.len(),
    decreases items.len(),
{
    if items.len() > 0 {
        lemma_sort_desc_len(items.drop_last());
        lemma_insert_desc_len(sort_desc(items.drop_last()), items.last());
    }
}


proof fn lemma_insert_desc_all<T>(sorted: Seq<(Ratio, T)>, x: (Ratio, T), p: spec_fn((Ratio, T)) -> bool)
    requires
        forall|i: int| 0 <= i < sorted.len() ==> p(#[trigger] sorted[i]),
        p(x),
    ensures
        forall|i: int| 0 <= i < insert_desc(sorted, x).len() ==> p(#[trigger] insert_desc(sorted, x)[i]),
    decreases sorted.len(),
{
    if sorted.len() > 0 && !sorted[0].0.lt(x.0) {
        let rest = sorted.drop_first();
        assert forall|i: int| 0 <= i < rest.len() implies p(#[trigger] rest[i]) by {
            assert(rest[i] == sorted[i + 1]);
        }
        lemma_insert_desc_all(rest, x, p);
        let r = insert_desc(sorted, x);
        assert forall|i: int| 0 <= i < r.len() implies p(#[trigger] r[i]) by {
            if i > 0 {
                assert(r[i] == insert_desc(rest, x)[i - 1]);
            }
        }
    } else if sorted.len() > 0 {
        let r = insert_desc(sorted, x);
        assert forall|i: int| 0 <= i < r.len() implies p(#[trigger] r[i]) by {
            if i > 0 {
                assert(r[i] == sorted[i - 1]);
            }
        }
    }
}

/// A property of every item holds of every item of the ordering.
pub proof fn lemma_sort_desc_all<T>(items: Seq<(Ratio, T)>, p: spec_fn((Ratio, T)) -> bool)
    requires
        forall|i: int| 0 <= i < items.len() ==> p(#[trigger] items[i]),
    ensures
        forall|i: int| 0 <= i < sort_desc(items).len() ==> p(#[trigger] sort_desc(items)[i]),
    decreases items.len(),
{
    if items.len() > 0 {
        let init = items.drop_last();
        assert forall|i: int| 0 <= i < init.len() implies p(#[trigger] init[i]) by {
            assert(init[i] == items[i]);
        }
        lemma_sort_desc_all(init, p);
        lemma_insert_desc_all(sort_desc(init), items.last(), p);
    }
}

/// An item whose score is above every other item's comes first.
pub proof fn lemma_sort_desc_top<T>(items: Seq<(Ratio, T)>, i: int)
    requires
        0 <= i < items.len(),
        forall|j: int| 0 <= j < items.len() && j != i ==> (#[trigger] items[j]).0.lt(items[i].0),
    ensures
        sort_desc(items).len() > 0,
        sort_desc(items)[0] == items[i],
    decreases items.len(),
{
    let x = items[i];
    let init = items.drop_last();
    let last = items.last();
    lemma_sort_desc_len(items);
    lemma_sort_desc_len(init);
    let s = sort_desc(init);
    if i == items.len() - 1 {
        assert forall|j: int| 0 <= j < init.len() implies (|y: (Ratio, T)| y.0.lt(x.0))(#[trigger] init[j]) by {
            assert(init[j] == items[j]);
        }
        lemma_sort_desc_all(init, |y: (Ratio, T)| y.0.lt(x.0));
        if s.len() > 0 {
            assert((|y: (Ratio, T)| y.0.lt(x.0))(s[0]));
            assert(insert_desc(s, x) == seq![x] + s);
        }
    } else {
        assert forall|j: int| 0 <= j < init.len() && j != i implies (#[trigger] init[j]).0.lt(init[i].0) by {
            assert(init[j] == items[j]);
        }
        lemma_sort_desc_top(init, i);
        assert(last.0.lt(x.0));
        assert(!x.0.lt(last.0));
        assert(insert_desc(s, last) == seq![s[0]] + insert_desc(s.drop_first(), last));
    }
}

pub open spec fn map_second<T, U>(items: Seq<(Ratio, T)>, f: spec_fn(T) -> U) -> Seq<(Ratio, U)> {
    items.map_values(|p: (Ratio, T)| (p.0, f(p.1)))
}

proof fn lemma_insert_desc_map<T, U>(sorted: Seq<(Ratio, T)>, x: (Ratio, T), f: spec_fn(T) -> U)
    ensures
        insert_desc(map_second(sorted, f), (x.0, f(x.1))) == map_second(insert_desc(sorted, x), f),
    decreases sorted.len(),
{
    if sorted.len() == 0 {
        assert(map_second(insert_desc(sorted, x), f) =~= seq![(x.0, f(x.1))]);
    } else if sorted[0].0.lt(x.0) {
        assert(map_second(insert_desc(sorted, x), f) =~= seq![(x.0, f(x.1))] + map_second(sorted, f));
    } else {
        lemma_insert_desc_map(sorted.drop_first(), x, f);
        assert(map_second(sorted, f).drop_first() =~= map_second(sorted.drop_first(), f));
        assert(map_second(insert_desc(sorted, x), f) =~= seq![(sorted[0].0, f(sorted[0].1))]
            + map_second(insert_desc(sorted.drop_first(), x), f));
    }
}

/// Ordering by score commutes with changing what is scored.
pub proof fn lemma_sort_desc_map<T, U>(items: Seq<(Ratio, T)>, f: spec_fn(T) -> U)
    ensures
        sort_desc(map_second(items, f)) == map_second(sort_desc(items), f),
    decreases items.len(),
{
    if items.len() > 0 {
        lemma_sort_desc_map(items.drop_last(), f);
        assert(map_second(items, f).drop_last() =~= map_second(items.drop_last(), f));
        lemma_insert_desc_map(sort_desc(items.drop_last()), items.last(), f);
    } else {
        assert(map_second(items, f) =~= Seq::<(Ratio, U)>::empty());
    }
}

/// Orders scored items by descending score, keeping the input order among
/// equal scores.
pub fn sort_by_score_desc<T>(items: Vec<(Ratio, T)>) -> (r: Vec<(Ratio, T)>)
    requires
        all_wf(items@),
    ensures
        r@ == sort_desc(items@),
{
    let ghost orig = items@;
    let mut rest = items;
    let mut queue: Vec<(Ratio, T)> = Vec::new();
    // reverse `rest` into `queue` so that popping yields items in input order
    while rest.len() > 0
        invariant
            orig == rest@ + queue@.reverse(),
            all_wf(orig),
        decreases rest.len(),
    {
        let ghost r0 = rest@;
        let ghost q0 = queue@;
        let x = rest.pop().unwrap();
        queue.push(x);
        proof {
            assert(r0 =~= rest@.push(x));
            assert(queue@.reverse() =~= seq![x] + q0.reverse());
            assert(orig =~= rest@ + queue@.reverse());
        }
    }
    assert(orig =~= queue@.reverse());
    let mut sorted: Vec<(Ratio, T)> = Vec::new();
    let ghost mut done: Seq<(Ratio, T)> = Seq::empty();
    while queue.len() > 0
        invariant
            orig == done + queue@.reverse(),
            sorted@ == sort_desc(done),
            all_wf(orig),
            all_wf(sorted@),
        decreases queue.len(),
    {
        let ghost q0 = queue@;
        let x = queue.pop().unwrap();
        proof {
            assert(q0 =~= queue@.push(x));
            assert(q0.reverse() =~= seq![x] + queue@.reverse());
            assert(orig[done.len() as int] == x);
        }
        let mut p: usize = 0;
        while p < sorted.len() && !sorted[p].0.less_than(&x.0)
            invariant
                p <= sorted.len(),
                x.0.wf(),
                all_wf(sorted@),
                forall|k: int| 0 <= k < p ==> !(#[trigger] sorted@[k]).0.lt(x.0),
            decreases sorted.len() - p,
        {
            p = p + 1;
        }
        let ghost s0 = sorted@;
        proof {
            lemma_insert_desc_at(s0, x, p as int);
        }
        sorted.insert(p, x);
        proof {
            assert(sorted@ =~= s0.take(p as int) + seq![x] + s0.skip(p as int));
            let d2 = done.push(x);
            assert(d2.drop_last() =~= done);
            done = d2;
            assert(orig =~= done + queue@.reverse());
            assert forall|i: int| 0 <= i < sorted@.len() implies (#[trigger] sorted@[i]).0.wf() by {
                if i < p {
                    assert(sorted@[i] == s0[i]);
                } else if i > p {
                    assert(sorted@[i] == s0[i - 1]);
                }
            }
        }
    }
    proof {
        assert(queue@.reverse() =~= Seq::<(Ratio, T)>::empty());
        assert(done =~= orig);
    }
    sorted
}

} // verus!
