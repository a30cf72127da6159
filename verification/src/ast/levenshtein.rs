//! Edit distance between character sequences.
use vstd::prelude::*;

verus! {

pub open spec fn min2(x: nat, y: nat) -> nat {
    if x <= y { x } else { y }
}

/// Levenshtein distance: the least number of single-character insertions,
/// deletions and substitutions that turn `a` into `b`.
pub open spec fn lev(a: Seq<char>, b: Seq<char>) -> nat
    decreases a.len() + b.len(),
{
    if a.len() == 0 {
        b.len()
    } else if b.len() == 0 {
        a.len()
    } else {
        let cost: nat = if a.last() == b.last() { 0 } else { 1 };
        min2(
            min2(lev(a.drop_last(), b) + 1, lev(a, b.drop_last()) + 1),
            lev(a.drop_last(), b.drop_last()) + cost,
        )
    }
}

/// The distance between prefixes of lengths `i` and `j`.
pub open spec fn lev_prefix(a: Seq<char>, b: Seq<char>, i: int, j: int) -> nat {
    lev(a.take(i), b.take(j))
}

/// The distance never exceeds the longer length.
pub proof fn lemma_lev_le_max(a: Seq<char>, b: Seq<char>)
    ensures
        lev(a, b) <= if a.len() >= b.len() { a.len() } else { b.len() },
    decreases a.len() + b.len(),
{
    if a.len() > 0 && b.len() > 0 {
        lemma_lev_le_max(a.drop_last(), b.drop_last());
        lemma_lev_le_max(a.drop_last(), b);
        lemma_lev_le_max(a, b.drop_last());
    }
}

/// The distance is at least the difference of the lengths.
pub proof fn lemma_lev_ge_len_diff(a: Seq<char>, b: Seq<char>)
    ensures
        lev(a, b) >= a.len() - b.len(),
        lev(a, b) >= b.len() - a.len(),
    decreases a.len() + b.len(),
{
    if a.len() > 0 && b.len() > 0 {
        lemma_lev_ge_len_diff(a.drop_last(), b.drop_last());
        lemma_lev_ge_len_diff(a.drop_last(), b);
        lemma_lev_ge_len_diff(a, b.drop_last());
    }
}

/// A sequence is at distance zero from itself.
pub proof fn lemma_lev_self(a: Seq<char>)
    ensures
        lev(a, a) == 0,
    decreases a.len(),
{
    if a.len() > 0 {
        lemma_lev_self(a.drop_last());
    }
}

/// Distance zero means equal sequences.
pub proof fn lemma_lev_zero_eq(a: Seq<char>, b: Seq<char>)
    requires
        lev(a, b) == 0,
    ensures
        a == b,
    decreases a.len() + b.len(),
{
    if a.len() > 0 && b.len() > 0 {
        lemma_lev_ge_len_diff(a.drop_last(), b);
        lemma_lev_ge_len_diff(a, b.drop_last());
        lemma_lev_zero_eq(a.drop_last(), b.drop_last());
        assert(a == a.drop_last().push(a.last()));
        assert(b == b.drop_last().push(b.last()));
    }
}

/// The distance is symmetric.
pub proof fn lemma_lev_symmetric(a: Seq<char>, b: Seq<char>)
    ensures
        lev(a, b) == lev(b, a),
    decreases a.len() + b.len(),
{
    if a.len() > 0 && b.len() > 0 {
        lemma_lev_symmetric(a.drop_last(), b.drop_last());
        lemma_lev_symmetric(a.drop_last(), b);
        lemma_lev_symmetric(a, b.drop_last());
    }
}

proof fn lemma_take_step(a: Seq<char>, i: int)
    requires
        0 < i <= a.len(),
    ensures
        a.take(i).drop_last() == a.take(i - 1),
        a.take(i).last() == a[i - 1],
        a.take(i).len() == i,
{
    assert(a.take(i).drop_last() =~= a.take(i - 1));
}

/// Levenshtein distance between two character sequences, computed row by row.
pub fn levenshtein(a: &[char], b: &[char]) -> (d: usize)
    requires
        a@.len() < usize::MAX,
        b@.len() < usize::MAX,
    ensures
        d == lev(a@, b@),
{
    let m = a.len();
    let n = b.len();
    // row[j] == lev_prefix(a, b, i, j)
    let mut row: Vec<usize> = Vec::new();
    let mut j: usize = 0;
    while j <= n
        invariant
            n == b@.len(),
            n < usize::MAX,
            j <= n + 1,
            row@.len() == j,
            forall|k: int| 0 <= k < j ==> row@[k] == lev_prefix(a@, b@, 0, k),
        decreases n + 1 - j,
    {
        proof {
            assert(a@.take(0).len() == 0);
        }
        row.push(j);
        j = j + 1;
    }
    let mut i: usize = 1;
    while i <= m
        invariant
            m == a@.len(),
            n == b@.len(),
            m < usize::MAX,
            n < usize::MAX,
            1 <= i <= m + 1,
            row@.len() == n + 1,
            forall|k: int| 0 <= k <= n ==> row@[k] == lev_prefix(a@, b@, i - 1, k),
        decreases m + 1 - i,
    {
        let mut cur: Vec<usize> = Vec::new();
        proof {
            lemma_take_step(a@, i as int);
            assert(b@.take(0).len() == 0);
        }
        cur.push(i);
        let mut j: usize = 1;
        while j <= n
            invariant
                m == a@.len(),
                n == b@.len(),
                m < usize::MAX,
                n < usize::MAX,
                1 <= i <= m,
                1 <= j <= n + 1,
                row@.len() == n + 1,
                cur@.len() == j,
                forall|k: int| 0 <= k <= n ==> row@[k] == lev_prefix(a@, b@, i - 1, k),
                forall|k: int| 0 <= k < j ==> cur@[k] == lev_prefix(a@, b@, i as int, k),
            decreases n + 1 - j,
        {
            proof {
                lemma_take_step(a@, i as int);
                lemma_take_step(b@, j as int);
                lemma_lev_le_max(a@.take(i - 1), b@.take(j as int));
                lemma_lev_le_max(a@.take(i as int), b@.take(j - 1));
                lemma_lev_le_max(a@.take(i - 1), b@.take(j - 1));
            }
            let cost: usize = if a[i - 1] == b[j - 1] { 0 } else { 1 };
            let del = row[j] + 1;
            let ins = cur[j - 1] + 1;
            let sub = row[j - 1] + cost;
            let best1 = if del <= ins { del } else { ins };
            let best = if best1 <= sub { best1 } else { sub };
            cur.push(best);
            j = j + 1;
        }
        row = cur;
        i = i + 1;
    }
    proof {
        assert(a@.take(m as int) == a@);
        assert(b@.take(n as int) == b@);
    }
    row[n]
}

} // verus!
