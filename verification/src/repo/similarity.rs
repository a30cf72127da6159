//! Repository-wide search for code similar to changed symbols: exact
//! duplicates, shingle (Jaccard) similarity pre-filtered by MinHash, and
//! shared name stems.
use vstd::prelude::*;

use crate::ast::symbol::{
    body_similarity_spec, bytes_len, hash_eq, lemma_similarity_small, Symbol, SymbolKind,
    SymbolView,
};
use crate::rank::{all_wf, lemma_sort_desc_all, lemma_sort_desc_len, lemma_sort_desc_map, map_second, sort_by_score_desc, sort_desc};
use crate::ratio::Ratio;
use crate::index::{entry_spec, ShingleEntryView, SymbolShingleEntry};
use crate::text::{byte_len, chars_of, lemma_bytes_at_least_chars, lowercase, push_char, string_from_chars, to_lowercase};

verus! {

/// How a piece of code resembles a changed symbol.
#[derive(Debug, Clone, Copy, PartialEq, Eq, Structural)]
pub enum SimilarityKind {
    ExactDuplicate,
    StructurallySimilar,
    NamePattern,
}

impl SimilarityKind {
    pub open spec fn label_text(self) -> Seq<char> {
        match self {
            SimilarityKind::ExactDuplicate => "EXACT"@,
            SimilarityKind::StructurallySimilar => "SIMILAR"@,
            SimilarityKind::NamePattern => "PATTERN"@,
        }
    }

    pub fn label(&self) -> (r: &'static str)
        ensures
            r@ == self.label_text(),
    {
        match self {
            SimilarityKind::ExactDuplicate => "EXACT",
            SimilarityKind::StructurallySimilar => "SIMILAR",
            SimilarityKind::NamePattern => "PATTERN",
        }
    }
}

// ------------------------------------------------------------------ hashing

/// FNV-1a over the bytes.
pub open spec fn fnv_hash(bytes: Seq<u8>) -> u64
    decreases bytes.len(),
{
    if bytes.len() == 0 {
        0xcbf29ce484222325u64
    } else {
        (fnv_hash(bytes.drop_last()) ^ (bytes.last() as u64)).wrapping_mul(0x100000001b3u64)
    }
}

/// FNV-1a hash of the UTF-8 bytes of a string.
fn simple_hash(s: &str) -> (h: u64)
    ensures
        h == fnv_hash(vstd::utf8::encode_utf8(s@)),
{
    let bytes = s.as_bytes();
    let mut hash: u64 = 0xcbf29ce484222325;
    let mut i: usize = 0;
    while i < bytes.len()
        invariant
            i <= bytes@.len(),
            bytes@ == vstd::utf8::encode_utf8(s@),
            hash == fnv_hash(bytes@.take(i as int)),
        decreases bytes.len() - i,
    {
        proof {
            assert(bytes@.take(i + 1).drop_last() =~= bytes@.take(i as int));
        }
        hash = hash ^ (bytes[i] as u64);
        hash = hash.wrapping_mul(0x100000001b3);
        i = i + 1;
    }
    proof {
        assert(bytes@.take(bytes@.len() as int) =~= bytes@);
    }
    hash
}

/// Hashes of the `n`-character windows of `c` from window `k` on.
pub open spec fn window_hashes(c: Seq<char>, n: nat, k: int) -> Seq<u64>
    decreases c.len() - k,
{
    if n == 0 || k < 0 || k + n > c.len() {
        Seq::empty()
    } else {
        seq![fnv_hash(vstd::utf8::encode_utf8(c.subrange(k, k + n)))] + window_hashes(c, n, k + 1)
    }
}

/// The distinct elements, in order of first occurrence.
pub open spec fn distinct(s: Seq<u64>) -> Seq<u64>
    decreases s.len(),
{
    if s.len() == 0 {
        Seq::empty()
    } else {
        let d = distinct(s.drop_last());
        if d.contains(s.last()) {
            d
        } else {
            d.push(s.last())
        }
    }
}

/// The shingle set of a text: the distinct hashes of its `n`-character
/// windows (none when the text is shorter than `n`).
pub open spec fn shingles_spec(text: Seq<char>, n: nat) -> Seq<u64> {
    distinct(window_hashes(text, n, 0))
}

pub proof fn lemma_push_has<A>(d: Seq<A>, a: A, x: A)
    ensures
        d.push(a).contains(x) <==> d.contains(x) || x == a,
{
    if d.push(a).contains(x) {
        let i = choose|i: int| 0 <= i < d.push(a).len() && d.push(a)[i] == x;
        if i < d.len() {
            assert(d[i] == x);
        }
    }
    if d.contains(x) {
        let i = choose|i: int| 0 <= i < d.len() && d[i] == x;
        assert(d.push(a)[i] == x);
    }
    if x == a {
        assert(d.push(a)[d.len() as int] == x);
    }
}

proof fn lemma_push_contains(d: Seq<u64>, a: u64, x: u64)
    ensures
        d.push(a).contains(x) <==> d.contains(x) || x == a,
{
    if d.push(a).contains(x) {
        let i = choose|i: int| 0 <= i < d.push(a).len() && d.push(a)[i] == x;
        if i < d.len() {
            assert(d[i] == x);
        }
    }
    if d.contains(x) {
        let i = choose|i: int| 0 <= i < d.len() && d[i] == x;
        assert(d.push(a)[i] == x);
    }
    if x == a {
        assert(d.push(a)[d.len() as int] == x);
    }
}

proof fn lemma_distinct_props(s: Seq<u64>)
    ensures
        distinct(s).no_duplicates(),
        forall|x: u64| distinct(s).contains(x) <==> s.contains(x),
        distinct(s).len() <= s.len(),
    decreases s.len(),
{
    if s.len() > 0 {
        let init = s.drop_last();
        let last = s.last();
        lemma_distinct_props(init);
        let d = distinct(init);
        assert forall|x: u64| distinct(s).contains(x) <==> s.contains(x) by {
            lemma_push_contains(init, last, x);
            assert(s =~= init.push(last));
            lemma_push_contains(d, last, x);
        }
    }
}

proof fn lemma_windows_len(c: Seq<char>, n: nat, k: int)
    requires
        n >= 1,
        0 <= k <= c.len() - n + 1,
    ensures
        window_hashes(c, n, k).len() == c.len() - n + 1 - k,
    decreases c.len() - k,
{
    if k + n <= c.len() {
        lemma_windows_len(c, n, k + 1);
    }
}

/// Appends `h` unless it is already present.
fn insert_unique(set: &mut Vec<u64>, h: u64)
    ensures
        final(set)@ == if old(set)@.contains(h) {
            old(set)@
        } else {
            old(set)@.push(h)
        },
{
    let mut i: usize = 0;
    while i < set.len()
        invariant
            i <= set@.len(),
            set@ == old(set)@,
            forall|k: int| 0 <= k < i ==> set@[k] != h,
        decreases set.len() - i,
    {
        if set[i] == h {
            assert(set@[i as int] == h);
            return;
        }
        i = i + 1;
    }
    set.push(h);
}

/// The `n`-character shingles of a text, hashed, each once.
pub fn compute_shingles(text: &str, n: usize) -> (r: Vec<u64>)
    ensures
        r@ == shingles_spec(text@, n as nat),
{
    let chars = chars_of(text);
    let ghost c = chars@;
    let mut out: Vec<u64> = Vec::new();
    if n == 0 || chars.len() < n {
        proof {
            assert(window_hashes(c, n as nat, 0) =~= Seq::<u64>::empty());
        }
        return out;
    }
    let mut k: usize = 0;
    proof {
        assert(window_hashes(c, n as nat, 0).take(0) =~= Seq::<u64>::empty());
        lemma_windows_len(c, n as nat, 0);
    }
    while k <= chars.len() - n
        invariant
            c == chars@,
            n > 0,
            n <= chars.len(),
            k <= chars.len() - n + 1,
            window_hashes(c, n as nat, 0).len() == chars.len() - n + 1,
            window_hashes(c, n as nat, 0) == window_hashes(c, n as nat, 0).take(k as int)
                + window_hashes(c, n as nat, k as int),
            out@ == distinct(window_hashes(c, n as nat, 0).take(k as int)),
        decreases chars.len() + 1 - k,
    {
        let window = string_from_chars(&chars.as_slice()[k..k + n]);
        let h = simple_hash(window.as_str());
        let ghost w = window_hashes(c, n as nat, 0);
        proof {
            assert(chars@.subrange(k as int, (k + n) as int) == window@);
            let rest = window_hashes(c, n as nat, k as int);
            assert(rest[0] == h);
            assert(w[k as int] == (w.take(k as int) + rest)[k as int]);
            assert(w[k as int] == h);
            assert(w.take(k + 1) =~= w.take(k as int).push(h));
            assert(w.take(k + 1).drop_last() =~= w.take(k as int));
            assert(rest =~= seq![h] + window_hashes(c, n as nat, k + 1));
            assert(w =~= w.take(k + 1) + window_hashes(c, n as nat, k + 1));
        }
        insert_unique(&mut out, h);
        k = k + 1;
    }
    proof {
        let w = window_hashes(c, n as nat, 0);
        assert(window_hashes(c, n as nat, k as int) =~= Seq::<u64>::empty());
        assert(w.take(k as int) =~= w);
    }
    out
}

/// Shingles of a text (the index-building entry point).
pub fn compute_shingles_public(text: &str, n: usize) -> (r: Vec<u64>)
    ensures
        r@ == shingles_spec(text@, n as nat),
{
    compute_shingles(text, n)
}

// ------------------------------------------------------------------ MinHash

/// Number of hash functions of a MinHash signature.
pub const MINHASH_SIZE: usize = 64;

/// The linear congruential sequence the MinHash seeds are drawn from.
pub open spec fn lcg(k: nat) -> u64
    decreases k,
{
    if k == 0 {
        0x517cc1b727220a95u64
    } else {
        lcg((k - 1) as nat).wrapping_mul(6364136223846793005u64).wrapping_add(1442695040888963407u64)
    }
}

/// Seed of the `i`-th hash function.
pub open spec fn minhash_seed(i: int) -> u64 {
    lcg((i + 1) as nat)
}

fn minhash_seeds() -> (r: Vec<u64>)
    ensures
        r@.len() == MINHASH_SIZE,
        forall|i: int| 0 <= i < MINHASH_SIZE ==> r@[i] == minhash_seed(i),
{
    let mut seeds: Vec<u64> = Vec::new();
    let mut h: u64 = 0x517cc1b727220a95;
    let mut i: usize = 0;
    while i < MINHASH_SIZE
        invariant
            i <= MINHASH_SIZE,
            seeds@.len() == i,
            h == lcg(i as nat),
            forall|k: int| 0 <= k < i ==> seeds@[k] == minhash_seed(k),
        decreases MINHASH_SIZE - i,
    {
        h = h.wrapping_mul(6364136223846793005).wrapping_add(1442695040888963407);
        seeds.push(h);
        i = i + 1;
    }
    seeds
}

/// The `seed`-th hash of a shingle.
pub open spec fn seeded(x: u64, seed: u64) -> u64 {
    x.wrapping_mul(seed).wrapping_add(seed)
}

/// The least seeded hash over the shingles, or `u64::MAX` when there are none.
pub open spec fn min_seeded(sh: Seq<u64>, seed: u64) -> u64
    decreases sh.len(),
{
    if sh.len() == 0 {
        u64::MAX
    } else {
        let m = min_seeded(sh.drop_last(), seed);
        let h = seeded(sh.last(), seed);
        if h < m {
            h
        } else {
            m
        }
    }
}

/// The MinHash signature of a shingle set.
pub open spec fn minhash_spec(sh: Seq<u64>) -> Seq<u64> {
    Seq::new(MINHASH_SIZE as nat, |i: int| min_seeded(sh, minhash_seed(i)))
}

fn compute_minhash(shingles: &Vec<u64>) -> (r: Vec<u64>)
    ensures
        r@ == minhash_spec(shingles@),
{
    let seeds = minhash_seeds();
    let mut sig: Vec<u64> = Vec::new();
    let mut z: usize = 0;
    while z < MINHASH_SIZE
        invariant
            z <= MINHASH_SIZE,
            sig@.len() == z,
            forall|k: int| 0 <= k < z ==> sig@[k] == u64::MAX,
        decreases MINHASH_SIZE - z,
    {
        sig.push(u64::MAX);
        z = z + 1;
    }
    let mut j: usize = 0;
    while j < shingles.len()
        invariant
            j <= shingles@.len(),
            sig@.len() == MINHASH_SIZE,
            seeds@.len() == MINHASH_SIZE,
            forall|i: int| 0 <= i < MINHASH_SIZE ==> seeds@[i] == minhash_seed(i),
            forall|i: int|
                0 <= i < MINHASH_SIZE ==> sig@[i] == min_seeded(shingles@.take(j as int), minhash_seed(i)),
        decreases shingles.len() - j,
    {
        let x = shingles[j];
        proof {
            assert(shingles@.take(j + 1).drop_last() =~= shingles@.take(j as int));
        }
        let mut i: usize = 0;
        while i < MINHASH_SIZE
            invariant
                i <= MINHASH_SIZE,
                j < shingles@.len(),
                x == shingles@[j as int],
                shingles@.take(j + 1).drop_last() == shingles@.take(j as int),
                shingles@.take(j + 1).last() == x,
                sig@.len() == MINHASH_SIZE,
                seeds@.len() == MINHASH_SIZE,
                forall|t: int| 0 <= t < MINHASH_SIZE ==> seeds@[t] == minhash_seed(t),
                forall|t: int|
                    0 <= t < i ==> sig@[t] == min_seeded(shingles@.take(j + 1), minhash_seed(t)),
                forall|t: int|
                    i <= t < MINHASH_SIZE ==> sig@[t] == min_seeded(shingles@.take(j as int), minhash_seed(t)),
            decreases MINHASH_SIZE - i,
        {
            let h = x.wrapping_mul(seeds[i]).wrapping_add(seeds[i]);
            if h < sig[i] {
                sig.set(i, h);
            }
            i = i + 1;
        }
        j = j + 1;
    }
    proof {
        assert(shingles@.take(shingles@.len() as int) =~= shingles@);
        assert(sig@ =~= minhash_spec(shingles@));
    }
    sig
}

/// Positions below `k` where the two signatures agree.
pub open spec fn agreeing(a: Seq<u64>, b: Seq<u64>, k: int) -> nat
    decreases k,
{
    if k <= 0 {
        0
    } else {
        agreeing(a, b, k - 1) + if a[k - 1] == b[k - 1] {
            1nat
        } else {
            0nat
        }
    }
}

/// Estimated Jaccard similarity: the share of agreeing signature positions.
pub open spec fn minhash_similarity_spec(a: Seq<u64>, b: Seq<u64>) -> Ratio {
    Ratio { num: agreeing(a, b, MINHASH_SIZE as int) as u64, den: MINHASH_SIZE as u64 }
}

fn minhash_similarity(a: &Vec<u64>, b: &Vec<u64>) -> (r: Ratio)
    requires
        a@.len() == MINHASH_SIZE,
        b@.len() == MINHASH_SIZE,
    ensures
        r == minhash_similarity_spec(a@, b@),
        r.wf(),
{
    let mut matches: u64 = 0;
    let mut i: usize = 0;
    while i < MINHASH_SIZE
        invariant
            i <= MINHASH_SIZE,
            a@.len() == MINHASH_SIZE,
            b@.len() == MINHASH_SIZE,
            matches == agreeing(a@, b@, i as int),
            matches <= i,
        decreases MINHASH_SIZE - i,
    {
        if a[i] == b[i] {
            matches = matches + 1;
        }
        i = i + 1;
    }
    Ratio { num: matches, den: MINHASH_SIZE as u64 }
}

/// A shingle set small enough for exact similarity arithmetic.
pub open spec fn sketch_ok(v: Seq<u64>) -> bool {
    v.len() < 0x1_0000_0000
}

/// Jaccard similarity of two shingle sets: shared elements over all
/// elements; two empty sets are identical.
pub open spec fn jaccard_spec(a: Seq<u64>, b: Seq<u64>) -> Ratio {
    if a.len() == 0 && b.len() == 0 {
        Ratio { num: 1, den: 1 }
    } else {
        let i = a.filter(|x: u64| b.contains(x)).len();
        if a.len() + b.len() - i == 0 {
            Ratio { num: 0, den: 1 }
        } else {
            Ratio { num: i as u64, den: (a.len() + b.len() - i) as u64 }
        }
    }
}

fn contains_u64(v: &Vec<u64>, x: u64) -> (r: bool)
    ensures
        r == v@.contains(x),
{
    let mut i: usize = 0;
    while i < v.len()
        invariant
            i <= v@.len(),
            forall|k: int| 0 <= k < i ==> v@[k] != x,
        decreases v.len() - i,
    {
        if v[i] == x {
            assert(v@[i as int] == x);
            return true;
        }
        i = i + 1;
    }
    false
}

fn jaccard_similarity(a: &Vec<u64>, b: &Vec<u64>) -> (r: Ratio)
    requires
        sketch_ok(a@),
        sketch_ok(b@),
    ensures
        r == jaccard_spec(a@, b@),
        r.wf(),
{
    if a.len() == 0 && b.len() == 0 {
        return Ratio { num: 1, den: 1 };
    }
    let ghost f = |x: u64| b@.contains(x);
    let mut inter: usize = 0;
    let mut i: usize = 0;
    while i < a.len()
        invariant
            i <= a@.len(),
            f == (|x: u64| b@.contains(x)),
            inter == a@.take(i as int).filter(f).len(),
            inter <= i,
        decreases a.len() - i,
    {
        proof {
            assert(a@.take(i + 1).drop_last() =~= a@.take(i as int));
            reveal_with_fuel(Seq::filter, 1);
        }
        if contains_u64(b, a[i]) {
            inter = inter + 1;
        }
        i = i + 1;
    }
    proof {
        assert(a@.take(a@.len() as int) =~= a@);
    }
    let union = (a.len() as u128) + (b.len() as u128) - (inter as u128);
    if union == 0 {
        return Ratio { num: 0, den: 1 };
    }
    Ratio { num: inter as u64, den: union as u64 }
}

// -------------------------------------------------------------------- stems

/// What `char::is_uppercase` answers: the Unicode `Uppercase` property.
pub uninterp spec fn uppercase_char(c: char) -> bool;

/// Whether `c` has the Unicode `Uppercase` property (`char::is_uppercase`).
#[verifier::external_body]
pub(crate) fn is_uppercase(c: char) -> (r: bool)
    ensures
        r == uppercase_char(c),
{
    c.is_uppercase()
}

/// Lexicographic order of texts by code point (the order of `String`,
/// whose byte-wise comparison of UTF-8 agrees with it).
pub open spec fn lex_lt(a: Seq<char>, b: Seq<char>) -> bool
    decreases a.len(),
{
    if a.len() == 0 {
        b.len() > 0
    } else if b.len() == 0 {
        false
    } else if a[0] != b[0] {
        a[0] < b[0]
    } else {
        lex_lt(a.drop_first(), b.drop_first())
    }
}

pub proof fn lemma_lex_trichotomy(a: Seq<char>, b: Seq<char>)
    ensures
        a == b || lex_lt(a, b) || lex_lt(b, a),
        !(lex_lt(a, b) && lex_lt(b, a)),
        !lex_lt(a, a),
    decreases a.len(),
{
    if a.len() > 0 && b.len() > 0 && a[0] == b[0] {
        lemma_lex_trichotomy(a.drop_first(), b.drop_first());
        if a.drop_first() == b.drop_first() {
            assert forall|k: int| 0 <= k < a.len() implies a[k] == b[k] by {
                if k > 0 {
                    assert(a[k] == a.drop_first()[k - 1]);
                    assert(b[k] == b.drop_first()[k - 1]);
                }
            }
            assert(a =~= b);
        }
    }
    if a.len() > 0 {
        lemma_lex_trichotomy(a.drop_first(), a.drop_first());
    }
    if a.len() == 0 && b.len() == 0 {
        assert(a =~= b);
    }
}

pub proof fn lemma_lex_transitive(a: Seq<char>, b: Seq<char>, c: Seq<char>)
    requires
        lex_lt(a, b),
        lex_lt(b, c),
    ensures
        lex_lt(a, c),
    decreases a.len(),
{
    if a.len() > 0 && b.len() > 0 && c.len() > 0 && a[0] == b[0] && b[0] == c[0] {
        lemma_lex_transitive(a.drop_first(), b.drop_first(), c.drop_first());
    }
}

fn lex_less(a: &Vec<char>, b: &Vec<char>) -> (r: bool)
    ensures
        r == lex_lt(a@, b@),
{
    proof {
        assert(a@.skip(0) =~= a@);
        assert(b@.skip(0) =~= b@);
    }
    let mut i: usize = 0;
    while i < a.len() && i < b.len()
        invariant
            i <= a@.len(),
            i <= b@.len(),
            a@.take(i as int) == b@.take(i as int),
            lex_lt(a@, b@) == lex_lt(a@.skip(i as int), b@.skip(i as int)),
        decreases a.len() - i,
    {
        if a[i] != b[i] {
            return a[i] < b[i];
        }
        proof {
            assert(a@.skip(i as int).drop_first() =~= a@.skip(i + 1));
            assert(b@.skip(i as int).drop_first() =~= b@.skip(i + 1));
            assert(a@.take(i + 1) =~= a@.take(i as int).push(a@[i as int]));
            assert(b@.take(i + 1) =~= b@.take(i as int).push(b@[i as int]));
        }
        i = i + 1;
    }
    i < b.len()
}

/// Lexicographic comparison of two texts.
pub fn lex_less_vec(a: &Vec<char>, b: &Vec<char>) -> (r: bool)
    ensures
        r == lex_lt(a@, b@),
{
    lex_less(a, b)
}

/// Strictly increasing in lexicographic order.
pub open spec fn strictly_sorted(v: Seq<Seq<char>>) -> bool {
    forall|i: int, j: int| 0 <= i < j < v.len() ==> lex_lt(#[trigger] v[i], #[trigger] v[j])
}

pub open spec fn char_vecs_view(v: Seq<Vec<char>>) -> Seq<Seq<char>> {
    v.map_values(|x: Vec<char>| x@)
}

/// Inserts `x` into a strictly sorted list unless it is already there.
fn insert_sorted(v: &mut Vec<Vec<char>>, x: Vec<char>)
    requires
        strictly_sorted(char_vecs_view(old(v)@)),
    ensures
        strictly_sorted(char_vecs_view(final(v)@)),
        forall|y: Seq<char>|
            char_vecs_view(final(v)@).contains(y) <==> (char_vecs_view(old(v)@).contains(y) || y
                == x@),
{
    let ghost vv = char_vecs_view(v@);
    let mut p: usize = 0;
    while p < v.len() && lex_less(&v[p], &x)
        invariant
            p <= v@.len(),
            vv == char_vecs_view(v@),
            v@ == old(v)@,
            forall|k: int| 0 <= k < p ==> lex_lt(vv[k], x@),
        decreases v.len() - p,
    {
        p = p + 1;
    }
    if p < v.len() && crate::text::chars_eq(v[p].as_slice(), x.as_slice()) {
        assert(vv[p as int] == x@);
        assert forall|y: Seq<char>| vv.contains(y) <==> (vv.contains(y) || y == x@) by {
            if y == x@ {
                assert(vv[p as int] == y);
            }
        }
        return;
    }
    proof {
        if p < v.len() {
            lemma_lex_trichotomy(vv[p as int], x@);
            assert(lex_lt(x@, vv[p as int]));
        }
    }
    let ghost xv = x@;
    v.insert(p, x);
    let ghost nv = char_vecs_view(v@);
    proof {
        assert(nv =~= vv.take(p as int).push(xv) + vv.skip(p as int));
        assert forall|i: int, j: int| 0 <= i < j < nv.len() implies lex_lt(
            #[trigger] nv[i],
            #[trigger] nv[j],
        ) by {
            if j < p {
                assert(nv[i] == vv[i] && nv[j] == vv[j]);
            } else if j == p {
                assert(nv[i] == vv[i]);
            } else if i < p {
                assert(nv[i] == vv[i] && nv[j] == vv[j - 1]);
                if p < vv.len() {
                    if j - 1 > p {
                        lemma_lex_transitive(xv, vv[p as int], vv[j - 1]);
                    }
                    lemma_lex_transitive(vv[i], xv, vv[j - 1]);
                }
            } else if i == p {
                assert(nv[j] == vv[j - 1]);
                if j - 1 > p {
                    lemma_lex_transitive(xv, vv[p as int], vv[j - 1]);
                }
            } else {
                assert(nv[i] == vv[i - 1] && nv[j] == vv[j - 1]);
            }
        }
        assert forall|y: Seq<char>| nv.contains(y) <==> (vv.contains(y) || y == xv) by {
            if nv.contains(y) {
                let k = choose|k: int| 0 <= k < nv.len() && nv[k] == y;
                if k < p {
                    assert(vv[k] == y);
                } else if k > p {
                    assert(vv[k - 1] == y);
                }
            }
            if vv.contains(y) {
                let k = choose|k: int| 0 <= k < vv.len() && vv[k] == y;
                if k < p {
                    assert(nv[k] == y);
                } else {
                    assert(nv[k + 1] == y);
                }
            }
            if y == xv {
                assert(nv[p as int] == y);
            }
        }
    }
}

/// Non-empty pieces of `c` between underscores, from position `i` on, with
/// `cur` the piece in progress.
pub open spec fn underscore_parts(c: Seq<char>, i: int, cur: Seq<char>, acc: Seq<Seq<char>>) -> Seq<
    Seq<char>,
>
    decreases c.len() - i,
{
    if i < 0 || i >= c.len() {
        if cur.len() > 0 {
            acc.push(cur)
        } else {
            acc
        }
    } else if c[i] == '_' {
        underscore_parts(c, i + 1, Seq::empty(), if cur.len() > 0 {
            acc.push(cur)
        } else {
            acc
        })
    } else {
        underscore_parts(c, i + 1, cur.push(c[i]), acc)
    }
}

/// Pieces of `c` cut before each upper-case letter that follows something.
pub open spec fn camel_parts(c: Seq<char>, i: int, cur: Seq<char>, acc: Seq<Seq<char>>) -> Seq<
    Seq<char>,
>
    decreases c.len() - i,
{
    if i < 0 || i >= c.len() {
        if cur.len() > 0 {
            acc.push(cur)
        } else {
            acc
        }
    } else if uppercase_char(c[i]) && cur.len() > 0 {
        camel_parts(c, i + 1, seq![c[i]], acc.push(cur))
    } else {
        camel_parts(c, i + 1, cur.push(c[i]), acc)
    }
}

/// The name's stems before sorting: underscore pieces, then camel-case
/// pieces, each lower-cased.
pub open spec fn raw_stems(name: Seq<char>) -> Seq<Seq<char>> {
    underscore_parts(name, 0, Seq::empty(), Seq::empty()).map_values(|p: Seq<char>| lowercase(p))
        + camel_parts(name, 0, Seq::empty(), Seq::empty()).map_values(|p: Seq<char>| lowercase(p))
}

pub open spec fn strings_view(v: Seq<String>) -> Seq<Seq<char>> {
    v.map_values(|s: String| s@)
}

fn lowered(part: &Vec<char>) -> (r: Vec<char>)
    ensures
        r@ == lowercase(part@),
{
    let s = string_from_chars(part.as_slice());
    let l = to_lowercase(s.as_str());
    chars_of(l.as_str())
}

/// Stems of a name, split on underscores and on camel-case boundaries,
/// lower-cased, sorted and without repeats.
pub fn extract_stems(name: &str) -> (r: Vec<String>)
    ensures
        strictly_sorted(strings_view(r@)),
        forall|y: Seq<char>| strings_view(r@).contains(y) <==> raw_stems(name@).contains(y),
{
    let c = chars_of(name);
    let ghost cv = c@;
    let mut parts: Vec<Vec<char>> = Vec::new();
    let mut cur: Vec<char> = Vec::new();
    proof {
        assert(char_vecs_view(parts@) =~= Seq::<Seq<char>>::empty());
        assert(cur@ =~= Seq::<char>::empty());
    }
    let mut i: usize = 0;
    while i < c.len()
        invariant
            i <= c@.len(),
            cv == c@,
            underscore_parts(cv, i as int, cur@, char_vecs_view(parts@)) == underscore_parts(
                cv,
                0,
                Seq::empty(),
                Seq::empty(),
            ),
        decreases c.len() - i,
    {
        if c[i] == '_' {
            if cur.len() > 0 {
                let ghost pv = char_vecs_view(parts@);
                let done = cur;
                parts.push(done);
                proof {
                    assert(char_vecs_view(parts@) =~= pv.push(done@));
                }
                cur = Vec::new();
            }
            proof {
                assert(cur@ =~= Seq::<char>::empty());
            }
        } else {
            cur.push(c[i]);
        }
        i = i + 1;
    }
    if cur.len() > 0 {
        let ghost pv = char_vecs_view(parts@);
        let done = cur;
        parts.push(done);
        proof {
            assert(char_vecs_view(parts@) =~= pv.push(done@));
        }
    }
    let ghost up = char_vecs_view(parts@);
    let mut camel: Vec<Vec<char>> = Vec::new();
    let mut cur: Vec<char> = Vec::new();
    proof {
        assert(char_vecs_view(camel@) =~= Seq::<Seq<char>>::empty());
        assert(cur@ =~= Seq::<char>::empty());
    }
    let mut i: usize = 0;
    while i < c.len()
        invariant
            i <= c@.len(),
            cv == c@,
            camel_parts(cv, i as int, cur@, char_vecs_view(camel@)) == camel_parts(
                cv,
                0,
                Seq::empty(),
                Seq::empty(),
            ),
        decreases c.len() - i,
    {
        let ch = c[i];
        if is_uppercase(ch) && cur.len() > 0 {
            let ghost pv = char_vecs_view(camel@);
            let done = cur;
            camel.push(done);
            proof {
                assert(char_vecs_view(camel@) =~= pv.push(done@));
            }
            cur = Vec::new();
            cur.push(ch);
            proof {
                assert(cur@ =~= seq![ch]);
            }
        } else {
            cur.push(ch);
        }
        i = i + 1;
    }
    if cur.len() > 0 {
        let ghost pv = char_vecs_view(camel@);
        let done = cur;
        camel.push(done);
        proof {
            assert(char_vecs_view(camel@) =~= pv.push(done@));
        }
    }
    let ghost cp = char_vecs_view(camel@);
    // lower-case every piece, in order
    let mut all: Vec<Vec<char>> = Vec::new();
    let mut k: usize = 0;
    while k < parts.len()
        invariant
            k <= parts@.len(),
            up == char_vecs_view(parts@),
            char_vecs_view(all@) == up.take(k as int).map_values(|p: Seq<char>| lowercase(p)),
        decreases parts.len() - k,
    {
        let ghost av = char_vecs_view(all@);
        let l = lowered(&parts[k]);
        all.push(l);
        proof {
            assert(char_vecs_view(all@) =~= av.push(lowercase(up[k as int])));
            assert(up.take(k + 1) =~= up.take(k as int).push(up[k as int]));
        }
        k = k + 1;
    }
    let ghost first = char_vecs_view(all@);
    let mut k: usize = 0;
    while k < camel.len()
        invariant
            k <= camel@.len(),
            cp == char_vecs_view(camel@),
            char_vecs_view(all@) == first + cp.take(k as int).map_values(|p: Seq<char>| lowercase(p)),
        decreases camel.len() - k,
    {
        let ghost av = char_vecs_view(all@);
        let l = lowered(&camel[k]);
        all.push(l);
        proof {
            assert(char_vecs_view(all@) =~= av.push(lowercase(cp[k as int])));
            assert(cp.take(k + 1) =~= cp.take(k as int).push(cp[k as int]));
        }
        k = k + 1;
    }
    proof {
        assert(up.take(up.len() as int) =~= up);
        assert(cp.take(cp.len() as int) =~= cp);
    }
    let ghost raw = char_vecs_view(all@);
    assert(raw == raw_stems(name@));
    // sort and remove repeats
    let mut sorted: Vec<Vec<char>> = Vec::new();
    let mut k: usize = 0;
    while k < all.len()
        invariant
            k <= all@.len(),
            raw == char_vecs_view(all@),
            strictly_sorted(char_vecs_view(sorted@)),
            forall|y: Seq<char>|
                char_vecs_view(sorted@).contains(y) <==> raw.take(k as int).contains(y),
        decreases all.len() - k,
    {
        let x = all[k].clone();
        assert(x@ =~= all@[k as int]@);
        let ghost before = char_vecs_view(sorted@);
        insert_sorted(&mut sorted, x);
        proof {
            assert(raw.take(k + 1) =~= raw.take(k as int).push(raw[k as int]));
            assert forall|y: Seq<char>| char_vecs_view(sorted@).contains(y) <==> raw.take(
                k + 1,
            ).contains(y) by {
                lemma_push_has(raw.take(k as int), raw[k as int], y);
                assert(before.contains(y) <==> raw.take(k as int).contains(y));
            }
        }
        k = k + 1;
    }
    proof {
        assert(raw.take(all@.len() as int) =~= raw);
    }
    let mut out: Vec<String> = Vec::new();
    let mut k: usize = 0;
    while k < sorted.len()
        invariant
            k <= sorted@.len(),
            strings_view(out@) == char_vecs_view(sorted@).take(k as int),
        decreases sorted.len() - k,
    {
        let ghost ov = strings_view(out@);
        out.push(string_from_chars(sorted[k].as_slice()));
        proof {
            assert(strings_view(out@) =~= ov.push(sorted@[k as int]@));
            assert(char_vecs_view(sorted@).take(k + 1) =~= char_vecs_view(sorted@).take(k as int).push(
                sorted@[k as int]@,
            ));
        }
        k = k + 1;
    }
    proof {
        assert(char_vecs_view(sorted@).take(sorted@.len() as int) =~= char_vecs_view(sorted@));
    }
    out
}

/// Stems of a name (the index-building entry point).
pub fn extract_stems_public(name: &str) -> (r: Vec<String>)
    ensures
        strictly_sorted(strings_view(r@)),
        forall|y: Seq<char>| strings_view(r@).contains(y) <==> raw_stems(name@).contains(y),
{
    extract_stems(name)
}

/// Two strictly sorted lists with the same elements are equal.
pub proof fn lemma_sorted_unique(a: Seq<Seq<char>>, b: Seq<Seq<char>>)
    requires
        strictly_sorted(a),
        strictly_sorted(b),
        forall|y: Seq<char>| a.contains(y) <==> b.contains(y),
    ensures
        a == b,
    decreases a.len() + b.len(),
{
    if a.len() > 0 && b.len() > 0 {
        // the first elements are both the least element
        assert(b.contains(a[0])) by {
            assert(a.contains(a[0]));
        }
        assert(a.contains(b[0])) by {
            assert(b.contains(b[0]));
        }
        let i = choose|i: int| 0 <= i < b.len() && b[i] == a[0];
        let j = choose|j: int| 0 <= j < a.len() && a[j] == b[0];
        if i > 0 {
            assert(lex_lt(b[0], b[i]));
            if j > 0 {
                assert(lex_lt(a[0], a[j]));
                lemma_lex_trichotomy(a[0], b[0]);
            } else {
                lemma_lex_trichotomy(a[0], b[0]);
            }
        }
        if j > 0 {
            assert(lex_lt(a[0], a[j]));
            lemma_lex_trichotomy(a[0], b[0]);
        }
        assert(a[0] == b[0]);
        let ta = a.drop_first();
        let tb = b.drop_first();
        assert forall|y: Seq<char>| ta.contains(y) <==> tb.contains(y) by {
            if ta.contains(y) {
                let k = choose|k: int| 0 <= k < ta.len() && ta[k] == y;
                assert(a[k + 1] == y);
                assert(lex_lt(a[0], a[k + 1]));
                lemma_lex_trichotomy(a[0], y);
                assert(b.contains(y));
                let m = choose|m: int| 0 <= m < b.len() && b[m] == y;
                assert(m != 0);
                assert(tb[m - 1] == y);
            }
            if tb.contains(y) {
                let k = choose|k: int| 0 <= k < tb.len() && tb[k] == y;
                assert(b[k + 1] == y);
                assert(lex_lt(b[0], b[k + 1]));
                lemma_lex_trichotomy(b[0], y);
                assert(a.contains(y));
                let m = choose|m: int| 0 <= m < a.len() && a[m] == y;
                assert(m != 0);
                assert(ta[m - 1] == y);
            }
        }
        assert forall|x: int, y: int| 0 <= x < y < ta.len() implies lex_lt(
            #[trigger] ta[x],
            #[trigger] ta[y],
        ) by {
            assert(ta[x] == a[x + 1] && ta[y] == a[y + 1]);
        }
        assert forall|x: int, y: int| 0 <= x < y < tb.len() implies lex_lt(
            #[trigger] tb[x],
            #[trigger] tb[y],
        ) by {
            assert(tb[x] == b[x + 1] && tb[y] == b[y + 1]);
        }
        lemma_sorted_unique(ta, tb);
        assert(a =~= seq![a[0]] + ta);
        assert(b =~= seq![b[0]] + tb);
    } else if a.len() > 0 {
        assert(a.contains(a[0]));
    } else if b.len() > 0 {
        assert(b.contains(b[0]));
    } else {
        assert(a =~= b);
    }
}

/// The sorted stems of a name without repeats.
pub open spec fn stems_spec(name: Seq<char>) -> Seq<Seq<char>> {
    choose|r: Seq<Seq<char>>|
        strictly_sorted(r) && forall|y: Seq<char>| r.contains(y) <==> raw_stems(name).contains(y)
}

/// The stems of a name, exactly.
pub fn name_stems(name: &str) -> (r: Vec<String>)
    ensures
        strings_view(r@) == stems_spec(name@),
{
    let r = extract_stems(name);
    proof {
        let w = strings_view(r@);
        assert(strictly_sorted(w) && forall|y: Seq<char>| w.contains(y) <==> raw_stems(name@).contains(y));
        let c = stems_spec(name@);
        lemma_sorted_unique(w, c);
    }
    r
}

// -------------------------------------------------------------------- index

/// Code that resembles a changed symbol.
#[derive(Debug)]
pub struct SimilarCode {
    pub changed_symbol: String,
    pub similar_symbol: String,
    pub file_path: String,
    pub line_range: (usize, usize),
    pub similarity: Ratio,
    pub kind: SimilarityKind,
}

pub struct SimilarView {
    pub changed_symbol: Seq<char>,
    pub similar_symbol: Seq<char>,
    pub file_path: Seq<char>,
    pub line_range: (usize, usize),
    pub similarity: Ratio,
    pub kind: SimilarityKind,
}

impl View for SimilarCode {
    type V = SimilarView;

    open spec fn view(&self) -> SimilarView {
        SimilarView {
            changed_symbol: self.changed_symbol@,
            similar_symbol: self.similar_symbol@,
            file_path: self.file_path@,
            line_range: self.line_range,
            similarity: self.similarity,
            kind: self.kind,
        }
    }
}

impl SimilarCode {
    pub fn duplicate(&self) -> (r: SimilarCode)
        ensures
            r@ == self@,
    {
        SimilarCode {
            changed_symbol: self.changed_symbol.clone(),
            similar_symbol: self.similar_symbol.clone(),
            file_path: self.file_path.clone(),
            line_range: self.line_range,
            similarity: self.similarity,
            kind: self.kind,
        }
    }
}

/// Shingles and MinHash signature of one indexed symbol.
#[derive(Debug)]
pub struct Sketch {
    pub key: String,
    pub shingles: Vec<u64>,
    pub minhash: Vec<u64>,
}

pub type SketchView = (Seq<char>, Seq<u64>, Seq<u64>);

/// Shingle-based similarity index for repository-wide comparison. Each
/// table is keyed by `file:qualified_name` (a body hash or a stem for the
/// last two), one entry per key, in order of first insertion. The tables are
/// lists of pairs rather than hash maps, so that the contracts fix both what
/// each key holds and the order in which keys are visited.
#[derive(Debug)]
pub struct SimilarityIndex {
    sketches: Vec<Sketch>,
    symbols: Vec<(String, Symbol)>,
    hash_index: Vec<([u8; 32], Vec<String>)>,
    stem_index: Vec<(String, Vec<String>)>,
}

pub struct IndexView {
    pub sketches: Seq<SketchView>,
    pub symbols: Seq<(Seq<char>, SymbolView)>,
    pub hash_index: Seq<(Seq<u8>, Seq<Seq<char>>)>,
    pub stem_index: Seq<(Seq<char>, Seq<Seq<char>>)>,
}

pub open spec fn keyed_strings(v: Seq<String>) -> Seq<Seq<char>> {
    v.map_values(|s: String| s@)
}

pub open spec fn sketches_view(v: Seq<Sketch>) -> Seq<SketchView> {
    v.map_values(|e: Sketch| (e.key@, e.shingles@, e.minhash@))
}

pub open spec fn symtab_view(v: Seq<(String, Symbol)>) -> Seq<(Seq<char>, SymbolView)> {
    v.map_values(|e: (String, Symbol)| (e.0@, e.1@))
}

pub open spec fn hashtab_view(v: Seq<([u8; 32], Vec<String>)>) -> Seq<(Seq<u8>, Seq<Seq<char>>)> {
    v.map_values(|e: ([u8; 32], Vec<String>)| (e.0@, keyed_strings(e.1@)))
}

pub open spec fn stemtab_view(v: Seq<(String, Vec<String>)>) -> Seq<(Seq<char>, Seq<Seq<char>>)> {
    v.map_values(|e: (String, Vec<String>)| (e.0@, keyed_strings(e.1@)))
}

impl View for SimilarityIndex {
    type V = IndexView;

    closed spec fn view(&self) -> IndexView {
        IndexView {
            sketches: sketches_view(self.sketches@),
            symbols: symtab_view(self.symbols@),
            hash_index: hashtab_view(self.hash_index@),
            stem_index: stemtab_view(self.stem_index@),
        }
    }
}

/// Every shingle set is small and every signature complete; every symbol
/// is well formed.
pub open spec fn index_wf(ix: IndexView) -> bool {
    &&& forall|i: int|
        0 <= i < ix.sketches.len() ==> sketch_ok((#[trigger] ix.sketches[i]).1)
            && ix.sketches[i].2.len() == MINHASH_SIZE
    &&& forall|i: int| 0 <= i < ix.symbols.len() ==> (#[trigger] ix.symbols[i]).1.wf()
}

/// The key of a symbol: its file and qualified name.
pub open spec fn symbol_key(s: SymbolView) -> Seq<char> {
    s.file_path + ":"@ + s.qualified_name
}

/// Position of key `k` among the entries' first components, or their number.
pub open spec fn find_key<K, V>(m: Seq<(K, V)>, k: K, i: int) -> int
    decreases m.len() - i,
{
    if i < 0 || i >= m.len() {
        m.len() as int
    } else if m[i].0 == k {
        i
    } else {
        find_key(m, k, i + 1)
    }
}

/// Sets the value of key `k`, keeping the entry's position.
pub open spec fn map_insert<K, V>(m: Seq<(K, V)>, k: K, v: V) -> Seq<(K, V)> {
    let i = find_key(m, k, 0);
    if i < m.len() {
        m.update(i, (k, v))
    } else {
        m.push((k, v))
    }
}

/// Appends `x` to the list of key `k`, creating it when absent.
pub open spec fn map_append<K, X>(m: Seq<(K, Seq<X>)>, k: K, x: X) -> Seq<(K, Seq<X>)> {
    let i = find_key(m, k, 0);
    if i < m.len() {
        m.update(i, (k, m[i].1.push(x)))
    } else {
        m.push((k, seq![x]))
    }
}

pub open spec fn sketch_find(m: Seq<SketchView>, k: Seq<char>, i: int) -> int
    decreases m.len() - i,
{
    if i < 0 || i >= m.len() {
        m.len() as int
    } else if m[i].0 == k {
        i
    } else {
        sketch_find(m, k, i + 1)
    }
}

pub open spec fn sketch_insert(m: Seq<SketchView>, e: SketchView) -> Seq<SketchView> {
    let i = sketch_find(m, e.0, 0);
    if i < m.len() {
        m.update(i, e)
    } else {
        m.push(e)
    }
}

/// Appends `x` under each of the keys, in order.
pub open spec fn append_all(m: Seq<(Seq<char>, Seq<Seq<char>>)>, ks: Seq<Seq<char>>, x: Seq<char>) -> Seq<
    (Seq<char>, Seq<Seq<char>>),
>
    decreases ks.len(),
{
    if ks.len() == 0 {
        m
    } else {
        map_append(append_all(m, ks.drop_last(), x), ks.last(), x)
    }
}

pub open spec fn empty_index() -> IndexView {
    IndexView {
        sketches: Seq::empty(),
        symbols: Seq::empty(),
        hash_index: Seq::empty(),
        stem_index: Seq::empty(),
    }
}

/// Indexes one symbol.
pub open spec fn index_symbol(ix: IndexView, s: SymbolView) -> IndexView {
    let key = symbol_key(s);
    let sh = shingles_spec(s.normalized_body, 4);
    IndexView {
        sketches: sketch_insert(ix.sketches, (key, sh, minhash_spec(sh))),
        symbols: map_insert(ix.symbols, key, s),
        hash_index: map_append(ix.hash_index, s.body_hash, key),
        stem_index: append_all(ix.stem_index, stems_spec(s.name), key),
    }
}

pub open spec fn build_spec(syms: Seq<SymbolView>) -> IndexView
    decreases syms.len(),
{
    if syms.len() == 0 {
        empty_index()
    } else {
        index_symbol(build_spec(syms.drop_last()), syms.last())
    }
}

fn symbol_key_of(s: &Symbol) -> (r: String)
    ensures
        r@ == symbol_key(s@),
{
    let mut k = s.file_path.clone();
    crate::text::push_str(&mut k, ":");
    crate::text::push_str(&mut k, s.qualified_name.as_str());
    k
}

fn find_sketch(m: &Vec<Sketch>, k: &String) -> (r: usize)
    ensures
        r as int == sketch_find(sketches_view(m@), k@, 0),
{
    let ghost v = sketches_view(m@);
    let mut i: usize = 0;
    while i < m.len()
        invariant
            i <= m@.len(),
            v == sketches_view(m@),
            sketch_find(v, k@, 0) == sketch_find(v, k@, i as int),
        decreases m.len() - i,
    {
        if m[i].key == *k {
            return i;
        }
        i = i + 1;
    }
    i
}

fn find_symbol(m: &Vec<(String, Symbol)>, k: &String) -> (r: usize)
    ensures
        r as int == find_key(symtab_view(m@), k@, 0),
{
    let ghost v = symtab_view(m@);
    let mut i: usize = 0;
    while i < m.len()
        invariant
            i <= m@.len(),
            v == symtab_view(m@),
            find_key(v, k@, 0) == find_key(v, k@, i as int),
        decreases m.len() - i,
    {
        if m[i].0 == *k {
            return i;
        }
        i = i + 1;
    }
    i
}

fn find_hash(m: &Vec<([u8; 32], Vec<String>)>, h: &[u8; 32]) -> (r: usize)
    ensures
        r as int == find_key(hashtab_view(m@), h@, 0),
{
    let ghost v = hashtab_view(m@);
    let mut i: usize = 0;
    while i < m.len()
        invariant
            i <= m@.len(),
            v == hashtab_view(m@),
            find_key(v, h@, 0) == find_key(v, h@, i as int),
        decreases m.len() - i,
    {
        if hash_eq(&m[i].0, h) {
            return i;
        }
        i = i + 1;
    }
    i
}

fn find_stem(m: &Vec<(String, Vec<String>)>, k: &String) -> (r: usize)
    ensures
        r as int == find_key(stemtab_view(m@), k@, 0),
{
    let ghost v = stemtab_view(m@);
    let mut i: usize = 0;
    while i < m.len()
        invariant
            i <= m@.len(),
            v == stemtab_view(m@),
            find_key(v, k@, 0) == find_key(v, k@, i as int),
        decreases m.len() - i,
    {
        if m[i].0 == *k {
            return i;
        }
        i = i + 1;
    }
    i
}

proof fn lemma_find_key_range<K, V>(m: Seq<(K, V)>, k: K, i: int)
    requires
        0 <= i <= m.len(),
    ensures
        i <= find_key(m, k, i) <= m.len(),
        find_key(m, k, i) < m.len() ==> m[find_key(m, k, i)].0 == k,
    decreases m.len() - i,
{
    if i < m.len() && m[i].0 != k {
        lemma_find_key_range(m, k, i + 1);
    }
}

proof fn lemma_sketch_find_range(m: Seq<SketchView>, k: Seq<char>, i: int)
    requires
        0 <= i <= m.len(),
    ensures
        i <= sketch_find(m, k, i) <= m.len(),
    decreases m.len() - i,
{
    if i < m.len() && m[i].0 != k {
        lemma_sketch_find_range(m, k, i + 1);
    }
}

fn sketch_put(m: &mut Vec<Sketch>, e: Sketch)
    ensures
        sketches_view(final(m)@) == sketch_insert(sketches_view(old(m)@), (e.key@, e.shingles@, e.minhash@)),
{
    let ghost v = sketches_view(m@);
    let i = find_sketch(m, &e.key);
    proof {
        lemma_sketch_find_range(v, e.key@, 0);
    }
    let ghost ev = (e.key@, e.shingles@, e.minhash@);
    if i < m.len() {
        m.set(i, e);
        proof {
            assert(sketches_view(m@) =~= v.update(i as int, ev));
        }
    } else {
        m.push(e);
        proof {
            assert(sketches_view(m@) =~= v.push(ev));
        }
    }
}

fn symbol_put(m: &mut Vec<(String, Symbol)>, k: String, s: Symbol)
    ensures
        symtab_view(final(m)@) == map_insert(symtab_view(old(m)@), k@, s@),
{
    let ghost v = symtab_view(m@);
    let i = find_symbol(m, &k);
    proof {
        lemma_find_key_range(v, k@, 0);
    }
    let ghost ev = (k@, s@);
    if i < m.len() {
        m.set(i, (k, s));
        proof {
            assert(symtab_view(m@) =~= v.update(i as int, ev));
        }
    } else {
        m.push((k, s));
        proof {
            assert(symtab_view(m@) =~= v.push(ev));
        }
    }
}

fn hash_append(m: &mut Vec<([u8; 32], Vec<String>)>, h: [u8; 32], key: String)
    ensures
        hashtab_view(final(m)@) == map_append(hashtab_view(old(m)@), h@, key@),
{
    let ghost v = hashtab_view(m@);
    let i = find_hash(m, &h);
    proof {
        lemma_find_key_range(v, h@, 0);
    }
    if i < m.len() {
        let ghost kv = key@;
        m[i].1.push(key);
        proof {
            assert(keyed_strings(m@[i as int].1@) =~= v[i as int].1.push(kv));
            assert(hashtab_view(m@) =~= v.update(i as int, (h@, v[i as int].1.push(kv))));
        }
    } else {
        let ghost kv = key@;
        let mut l: Vec<String> = Vec::new();
        l.push(key);
        m.push((h, l));
        proof {
            assert(keyed_strings(l@) =~= seq![kv]);
            assert(hashtab_view(m@) =~= v.push((h@, seq![kv])));
        }
    }
}

fn stem_append(m: &mut Vec<(String, Vec<String>)>, stem: &String, key: &String)
    ensures
        stemtab_view(final(m)@) == map_append(stemtab_view(old(m)@), stem@, key@),
{
    let ghost v = stemtab_view(m@);
    let i = find_stem(m, stem);
    proof {
        lemma_find_key_range(v, stem@, 0);
    }
    if i < m.len() {
        m[i].1.push(key.clone());
        proof {
            assert(keyed_strings(m@[i as int].1@) =~= v[i as int].1.push(key@));
            assert(stemtab_view(m@) =~= v.update(i as int, (stem@, v[i as int].1.push(key@))));
        }
    } else {
        let mut l: Vec<String> = Vec::new();
        l.push(key.clone());
        m.push((stem.clone(), l));
        proof {
            assert(keyed_strings(l@) =~= seq![key@]);
            assert(stemtab_view(m@) =~= v.push((stem@, seq![key@])));
        }
    }
}

fn stems_append(m: &mut Vec<(String, Vec<String>)>, stems: &Vec<String>, key: &String)
    ensures
        stemtab_view(final(m)@) == append_all(stemtab_view(old(m)@), keyed_strings(stems@), key@),
{
    let ghost base = stemtab_view(m@);
    let ghost ks = keyed_strings(stems@);
    let mut i: usize = 0;
    while i < stems.len()
        invariant
            i <= stems@.len(),
            ks == keyed_strings(stems@),
            stemtab_view(m@) == append_all(base, ks.take(i as int), key@),
        decreases stems.len() - i,
    {
        stem_append(m, &stems[i], key);
        proof {
            assert(ks.take(i + 1).drop_last() =~= ks.take(i as int));
        }
        i = i + 1;
    }
    proof {
        assert(ks.take(stems@.len() as int) =~= ks);
    }
}

proof fn lemma_shingles_small(text: Seq<char>, n: nat)
    requires
        n >= 1,
    ensures
        shingles_spec(text, n).len() <= text.len(),
{
    lemma_distinct_props(window_hashes(text, n, 0));
    if n <= text.len() {
        lemma_windows_len(text, n, 0);
    } else {
        assert(window_hashes(text, n, 0).len() == 0);
    }
}

/// The shingle set of a comparable symbol's body is small enough for exact
/// Jaccard arithmetic.
pub proof fn lemma_entry_shingles_fit(s: SymbolView)
    requires
        s.comparable(),
    ensures
        sketch_ok(shingles_spec(s.normalized_body, 4)),
{
    lemma_shingles_small(s.normalized_body, 4);
    lemma_bytes_at_least_chars(s.normalized_body);
}

pub open spec fn all_syms_view(v: Seq<Symbol>) -> Seq<SymbolView> {
    v.map_values(|s: Symbol| s@)
}

/// Indexes the symbols of a cache: the symbol table from the symbols, the
/// rest from the cached entries (each shingle list taken as a set).
pub open spec fn cache_symbols(syms: Seq<SymbolView>) -> Seq<(Seq<char>, SymbolView)>
    decreases syms.len(),
{
    if syms.len() == 0 {
        Seq::empty()
    } else {
        map_insert(cache_symbols(syms.drop_last()), symbol_key(syms.last()), syms.last())
    }
}

pub open spec fn index_entry(ix: IndexView, e: ShingleEntryView) -> IndexView {
    let sh = distinct(e.shingles);
    IndexView {
        sketches: sketch_insert(ix.sketches, (e.key, sh, minhash_spec(sh))),
        symbols: ix.symbols,
        hash_index: map_append(ix.hash_index, e.body_hash, e.key),
        stem_index: append_all(ix.stem_index, e.stems, e.key),
    }
}

pub open spec fn cache_entries(ix: IndexView, es: Seq<ShingleEntryView>) -> IndexView
    decreases es.len(),
{
    if es.len() == 0 {
        ix
    } else {
        index_entry(cache_entries(ix, es.drop_last()), es.last())
    }
}

pub open spec fn build_from_cache_spec(syms: Seq<SymbolView>, es: Seq<ShingleEntryView>) -> IndexView {
    cache_entries(
        IndexView {
            sketches: Seq::empty(),
            symbols: cache_symbols(syms),
            hash_index: Seq::empty(),
            stem_index: Seq::empty(),
        },
        es,
    )
}

pub open spec fn entries_view(v: Seq<SymbolShingleEntry>) -> Seq<ShingleEntryView> {
    v.map_values(|e: SymbolShingleEntry| e@)
}

proof fn lemma_distinct_of_unique(s: Seq<u64>)
    requires
        s.no_duplicates(),
    ensures
        distinct(s) == s,
    decreases s.len(),
{
    if s.len() > 0 {
        let init = s.drop_last();
        assert(init.no_duplicates());
        lemma_distinct_of_unique(init);
        if init.contains(s.last()) {
            let i = choose|i: int| 0 <= i < init.len() && init[i] == s.last();
            assert(s[i] == s[s.len() - 1]);
        }
        assert(init.push(s.last()) =~= s);
    }
}

proof fn lemma_cache_entries_agree(x: Seq<(Seq<char>, SymbolView)>, syms: Seq<SymbolView>)
    ensures
        ({
            let c = cache_entries(
                IndexView { sketches: Seq::empty(), symbols: x, hash_index: Seq::empty(), stem_index: Seq::empty() },
                syms.map_values(|s: SymbolView| entry_spec(s)),
            );
            let b = build_spec(syms);
            &&& c.sketches == b.sketches
            &&& c.hash_index == b.hash_index
            &&& c.stem_index == b.stem_index
            &&& c.symbols == x
        }),
    decreases syms.len(),
{
    if syms.len() > 0 {
        let init = syms.drop_last();
        lemma_cache_entries_agree(x, init);
        let es = syms.map_values(|s: SymbolView| entry_spec(s));
        assert(es.drop_last() =~= init.map_values(|s: SymbolView| entry_spec(s)));
        assert(es.last() == entry_spec(syms.last()));
        let sh = shingles_spec(syms.last().normalized_body, 4);
        lemma_distinct_props(window_hashes(syms.last().normalized_body, 4, 0));
        lemma_distinct_of_unique(sh);
    } else {
        assert(syms.map_values(|s: SymbolView| entry_spec(s)) =~= Seq::<ShingleEntryView>::empty());
    }
}

proof fn lemma_cache_symbols_agree(syms: Seq<SymbolView>)
    ensures
        cache_symbols(syms) == build_spec(syms).symbols,
    decreases syms.len(),
{
    if syms.len() > 0 {
        lemma_cache_symbols_agree(syms.drop_last());
    }
}

/// Building the index from symbols and the shingle cache computed for
/// those same symbols gives the index built from the symbols alone.
pub proof fn lemma_build_from_cache_agrees(syms: Seq<SymbolView>)
    ensures
        build_from_cache_spec(syms, syms.map_values(|s: SymbolView| entry_spec(s))) == build_spec(syms),
{
    lemma_cache_symbols_agree(syms);
    lemma_cache_entries_agree(cache_symbols(syms), syms);
}

proof fn lemma_sketch_insert_wf(m: Seq<SketchView>, e: SketchView)
    requires
        forall|i: int| 0 <= i < m.len() ==> sketch_ok((#[trigger] m[i]).1) && m[i].2.len() == MINHASH_SIZE,
        sketch_ok(e.1),
        e.2.len() == MINHASH_SIZE,
    ensures
        forall|i: int|
            0 <= i < sketch_insert(m, e).len() ==> sketch_ok((#[trigger] sketch_insert(m, e)[i]).1)
                && sketch_insert(m, e)[i].2.len() == MINHASH_SIZE,
{
    lemma_sketch_find_range(m, e.0, 0);
}

proof fn lemma_map_insert_wf(m: Seq<(Seq<char>, SymbolView)>, k: Seq<char>, s: SymbolView)
    requires
        forall|i: int| 0 <= i < m.len() ==> (#[trigger] m[i]).1.wf(),
        s.wf(),
    ensures
        forall|i: int| 0 <= i < map_insert(m, k, s).len() ==> (#[trigger] map_insert(m, k, s)[i]).1.wf(),
{
    lemma_find_key_range(m, k, 0);
}

impl SimilarityIndex {
    fn add_symbol(&mut self, sym: &Symbol)
        requires
            index_wf(old(self)@),
            sym@.wf(),
            sym@.comparable(),
        ensures
            final(self)@ == index_symbol(old(self)@, sym@),
            index_wf(final(self)@),
    {
        let ghost before = self@;
        let key = symbol_key_of(sym);
        let shingles = compute_shingles(sym.normalized_body.as_str(), 4);
        let mh = compute_minhash(&shingles);
        proof {
            lemma_shingles_small(sym@.normalized_body, 4);
            crate::text::lemma_bytes_at_least_chars(sym@.normalized_body);
            assert(before.sketches == sketches_view(self.sketches@));
            assert(before.symbols == symtab_view(self.symbols@));
            lemma_sketch_insert_wf(before.sketches, (key@, shingles@, mh@));
            lemma_map_insert_wf(before.symbols, key@, sym@);
        }
        sketch_put(&mut self.sketches, Sketch { key: key.clone(), shingles, minhash: mh });
        symbol_put(&mut self.symbols, key.clone(), sym.duplicate());
        hash_append(&mut self.hash_index, sym.body_hash, key.clone());
        let stems = name_stems(sym.name.as_str());
        stems_append(&mut self.stem_index, &stems, &key);
    }

    fn add_entry(&mut self, entry: &SymbolShingleEntry)
        requires
            index_wf(old(self)@),
            sketch_ok(entry.shingles@),
        ensures
            final(self)@ == index_entry(old(self)@, entry@),
            index_wf(final(self)@),
    {
        let ghost before = self@;
        let mut set: Vec<u64> = Vec::new();
        let mut t: usize = 0;
        while t < entry.shingles.len()
            invariant
                t <= entry.shingles@.len(),
                set@ == distinct(entry.shingles@.take(t as int)),
            decreases entry.shingles.len() - t,
        {
            proof {
                assert(entry.shingles@.take(t + 1).drop_last() =~= entry.shingles@.take(t as int));
            }
            insert_unique(&mut set, entry.shingles[t]);
            t = t + 1;
        }
        proof {
            assert(entry.shingles@.take(entry.shingles@.len() as int) =~= entry.shingles@);
            lemma_distinct_props(entry.shingles@);
        }
        let mh = compute_minhash(&set);
        proof {
            assert(before.sketches == sketches_view(self.sketches@));
            lemma_sketch_insert_wf(before.sketches, (entry.key@, set@, mh@));
        }
        let ghost sh = set@;
        sketch_put(&mut self.sketches, Sketch { key: entry.key.clone(), shingles: set, minhash: mh });
        hash_append(&mut self.hash_index, entry.body_hash, entry.key.clone());
        stems_append(&mut self.stem_index, &entry.stems, &entry.key);
        proof {
            assert(self@.symbols == before.symbols);
            assert(self@.sketches == sketch_insert(before.sketches, (entry.key@, sh, mh@)));
        }
    }

    /// Builds the index from all symbols of a repository.
    pub fn build(all_symbols: &[Symbol]) -> (r: SimilarityIndex)
        requires
            forall|i: int|
                0 <= i < all_symbols@.len() ==> (#[trigger] all_symbols@[i])@.wf()
                    && all_symbols@[i]@.comparable(),
        ensures
            r@ == build_spec(all_syms_view(all_symbols@)),
            index_wf(r@),
    {
        let ghost sv = all_syms_view(all_symbols@);
        let mut ix = SimilarityIndex {
            sketches: Vec::new(),
            symbols: Vec::new(),
            hash_index: Vec::new(),
            stem_index: Vec::new(),
        };
        proof {
            assert(ix@ =~= empty_index()) by {
                assert(sketches_view(ix.sketches@) =~= Seq::<SketchView>::empty());
                assert(symtab_view(ix.symbols@) =~= Seq::<(Seq<char>, SymbolView)>::empty());
                assert(hashtab_view(ix.hash_index@) =~= Seq::<(Seq<u8>, Seq<Seq<char>>)>::empty());
                assert(stemtab_view(ix.stem_index@) =~= Seq::<(Seq<char>, Seq<Seq<char>>)>::empty());
            }
            assert(sv.take(0) =~= Seq::<SymbolView>::empty());
        }
        let mut i: usize = 0;
        while i < all_symbols.len()
            invariant
                i <= all_symbols@.len(),
                sv == all_syms_view(all_symbols@),
                forall|k: int|
                    0 <= k < all_symbols@.len() ==> (#[trigger] all_symbols@[k])@.wf()
                        && all_symbols@[k]@.comparable(),
                ix@ == build_spec(sv.take(i as int)),
                index_wf(ix@),
            decreases all_symbols.len() - i,
        {
            let sym = &all_symbols[i];
            assert(sym@ == all_symbols@[i as int]@);
            ix.add_symbol(sym);
            proof {
                assert(sv.take(i + 1).drop_last() =~= sv.take(i as int));
                assert(sv.take(i + 1).last() == sym@);
            }
            i = i + 1;
        }
        proof {
            assert(sv.take(all_symbols@.len() as int) =~= sv);
        }
        ix
    }

    /// Builds the index from symbols and their cached shingle data.
    pub fn build_from_cache(all_symbols: &[Symbol], cache: &[SymbolShingleEntry]) -> (r:
        SimilarityIndex)
        requires
            forall|i: int| 0 <= i < all_symbols@.len() ==> (#[trigger] all_symbols@[i])@.wf(),
            forall|i: int| 0 <= i < cache@.len() ==> sketch_ok((#[trigger] cache@[i]).shingles@),
        ensures
            r@ == build_from_cache_spec(all_syms_view(all_symbols@), entries_view(cache@)),
            index_wf(r@),
    {
        let ghost sv = all_syms_view(all_symbols@);
        let ghost ev = entries_view(cache@);
        let mut symbols: Vec<(String, Symbol)> = Vec::new();
        proof {
            assert(symtab_view(symbols@) =~= Seq::<(Seq<char>, SymbolView)>::empty());
            assert(sv.take(0) =~= Seq::<SymbolView>::empty());
        }
        let mut i: usize = 0;
        while i < all_symbols.len()
            invariant
                i <= all_symbols@.len(),
                sv == all_syms_view(all_symbols@),
                forall|k: int| 0 <= k < all_symbols@.len() ==> (#[trigger] all_symbols@[k])@.wf(),
                symtab_view(symbols@) == cache_symbols(sv.take(i as int)),
                forall|k: int| 0 <= k < symtab_view(symbols@).len() ==> (#[trigger] symtab_view(symbols@)[k]).1.wf(),
            decreases all_symbols.len() - i,
        {
            let sym = &all_symbols[i];
            assert(sym@ == all_symbols@[i as int]@);
            let key = symbol_key_of(sym);
            proof {
                lemma_map_insert_wf(symtab_view(symbols@), key@, sym@);
                assert(sv.take(i + 1).drop_last() =~= sv.take(i as int));
            }
            symbol_put(&mut symbols, key, sym.duplicate());
            i = i + 1;
        }
        proof {
            assert(sv.take(all_symbols@.len() as int) =~= sv);
        }
        let mut ix = SimilarityIndex {
            sketches: Vec::new(),
            symbols,
            hash_index: Vec::new(),
            stem_index: Vec::new(),
        };
        let ghost start = ix@;
        proof {
            assert(start =~= IndexView {
                sketches: Seq::empty(),
                symbols: cache_symbols(sv),
                hash_index: Seq::empty(),
                stem_index: Seq::empty(),
            }) by {
                assert(sketches_view(ix.sketches@) =~= Seq::<SketchView>::empty());
                assert(hashtab_view(ix.hash_index@) =~= Seq::<(Seq<u8>, Seq<Seq<char>>)>::empty());
                assert(stemtab_view(ix.stem_index@) =~= Seq::<(Seq<char>, Seq<Seq<char>>)>::empty());
            }
            assert(ev.take(0) =~= Seq::<ShingleEntryView>::empty());
        }
        let mut j: usize = 0;
        while j < cache.len()
            invariant
                j <= cache@.len(),
                ev == entries_view(cache@),
                forall|k: int| 0 <= k < cache@.len() ==> sketch_ok((#[trigger] cache@[k]).shingles@),
                ix@ == cache_entries(start, ev.take(j as int)),
                index_wf(ix@),
            decreases cache.len() - j,
        {
            let entry = &cache[j];
            assert(entry@ == ev[j as int]);
            ix.add_entry(entry);
            proof {
                assert(ev.take(j + 1).drop_last() =~= ev.take(j as int));
            }
            j = j + 1;
        }
        proof {
            assert(ev.take(cache@.len() as int) =~= ev);
        }
        ix
    }
}

// ------------------------------------------------------------ find similar

pub open spec fn similar_to(changed: SymbolView, sym: SymbolView, sim: Ratio, kind: SimilarityKind) -> SimilarView {
    SimilarView {
        changed_symbol: changed.qualified_name,
        similar_symbol: sym.qualified_name,
        file_path: sym.file_path,
        line_range: sym.line_range,
        similarity: sim,
        kind,
    }
}

/// The symbol stored under a key, if any.
pub open spec fn symbol_at(ix: IndexView, key: Seq<char>) -> Option<SymbolView> {
    let i = find_key(ix.symbols, key, 0);
    if i < ix.symbols.len() {
        Some(ix.symbols[i].1)
    } else {
        None
    }
}

/// The keys listed under a body hash.
pub open spec fn keys_with_hash(ix: IndexView, h: Seq<u8>) -> Seq<Seq<char>> {
    let i = find_key(ix.hash_index, h, 0);
    if i < ix.hash_index.len() {
        ix.hash_index[i].1
    } else {
        Seq::empty()
    }
}

/// Phase 1: every other symbol with the same body, in index order.
pub open spec fn exact_matches(ix: IndexView, changed: SymbolView, keys: Seq<Seq<char>>) -> Seq<SimilarView>
    decreases keys.len(),
{
    if keys.len() == 0 {
        Seq::empty()
    } else {
        let r = exact_matches(ix, changed, keys.drop_last());
        let k = keys.last();
        if k != symbol_key(changed) && symbol_at(ix, k) is Some {
            r.push(similar_to(changed, symbol_at(ix, k)->0, Ratio { num: 1, den: 1 }, SimilarityKind::ExactDuplicate))
        } else {
            r
        }
    }
}

/// MinHash estimate at least `min - 1/10`.
pub open spec fn near_enough(approx: Ratio, min: Ratio) -> bool {
    approx.num * min.den * 10 >= (10 * min.num - min.den) * approx.den
}

/// Phase 2 candidates: other sketches whose estimated similarity is near
/// the threshold, with their estimate and position.
pub open spec fn estimate_candidates(ix: IndexView, ckey: Seq<char>, cmh: Seq<u64>, min: Ratio, k: int) -> Seq<
    (Ratio, usize),
>
    decreases k,
{
    if k <= 0 {
        Seq::empty()
    } else {
        let r = estimate_candidates(ix, ckey, cmh, min, k - 1);
        let e = ix.sketches[k - 1];
        let approx = minhash_similarity_spec(cmh, e.2);
        if e.0 != ckey && near_enough(approx, min) {
            r.push((approx, (k - 1) as usize))
        } else {
            r
        }
    }
}

/// Phase 2: the best candidates (at most 100), checked by exact Jaccard
/// similarity, keeping at most 10 with `min <= sim < 1`.
pub open spec fn verify_candidates(
    ix: IndexView,
    changed: SymbolView,
    cs: Seq<u64>,
    min: Ratio,
    cands: Seq<(Ratio, usize)>,
) -> Seq<SimilarView>
    decreases cands.len(),
{
    if cands.len() == 0 {
        Seq::empty()
    } else {
        let r = verify_candidates(ix, changed, cs, min, cands.drop_last());
        let e = ix.sketches[cands.last().1 as int];
        let sym = symbol_at(ix, e.0);
        if r.len() >= 10 {
            r
        } else if sym is Some && sym->0.kind == changed.kind && sym->0.body_hash != changed.body_hash
            && e.1.len() >= 3 {
            let sim = jaccard_spec(cs, e.1);
            if min.le(sim) {
                if sim.num < sim.den {
                    r.push(similar_to(changed, sym->0, sim, SimilarityKind::StructurallySimilar))
                } else {
                    r
                }
            } else {
                r
            }
        } else {
            r
        }
    }
}

/// The keys listed under a stem, if the stem is long enough and not too common.
pub open spec fn stem_keys(ix: IndexView, stem: Seq<char>) -> Seq<Seq<char>> {
    let i = find_key(ix.stem_index, stem, 0);
    if bytes_len(stem) < 4 || i >= ix.stem_index.len() || ix.stem_index[i].1.len() > 50 {
        Seq::empty()
    } else {
        ix.stem_index[i].1
    }
}

pub open spec fn stem_pairs(ix: IndexView, stems: Seq<Seq<char>>) -> Seq<Seq<char>>
    decreases stems.len(),
{
    if stems.len() == 0 {
        Seq::empty()
    } else {
        stem_pairs(ix, stems.drop_last()) + stem_keys(ix, stems.last())
    }
}

/// Phase 3 over the listed keys: symbols of the same kind sharing a name
/// stem, with bodies of at most 3000 bytes and body similarity above 3/10,
/// each key once, at most 5. Returns the results and the keys taken.
pub open spec fn pattern_matches(ix: IndexView, changed: SymbolView, keys: Seq<Seq<char>>) -> (Seq<SimilarView>, Seq<Seq<char>>)
    decreases keys.len(),
{
    if keys.len() == 0 {
        (Seq::empty(), Seq::empty())
    } else {
        let (r, found) = pattern_matches(ix, changed, keys.drop_last());
        let k = keys.last();
        let sym = symbol_at(ix, k);
        if r.len() >= 5 || k == symbol_key(changed) || found.contains(k) || sym is None {
            (r, found)
        } else {
            let s = sym->0;
            let bs = body_similarity_spec(changed, s);
            if s.kind != changed.kind || bytes_len(changed.normalized_body) > 3000 || bytes_len(
                s.normalized_body,
            ) > 3000 || !bs.above(3, 10) {
                (r, found)
            } else {
                (r.push(similar_to(changed, s, bs, SimilarityKind::NamePattern)), found.push(k))
            }
        }
    }
}

/// Everything found for one changed symbol.
pub open spec fn similar_for(ix: IndexView, changed: SymbolView, min: Ratio) -> Seq<SimilarView> {
    let p1 = exact_matches(ix, changed, keys_with_hash(ix, changed.body_hash));
    let cs = shingles_spec(changed.normalized_body, 4);
    if cs.len() < 3 {
        p1
    } else {
        let cmh = minhash_spec(cs);
        let cands = sort_desc(estimate_candidates(ix, symbol_key(changed), cmh, min, ix.sketches.len() as int));
        let top = if cands.len() > 100 {
            cands.take(100)
        } else {
            cands
        };
        p1 + verify_candidates(ix, changed, cs, min, top) + pattern_matches(
            ix,
            changed,
            stem_pairs(ix, stems_spec(changed.name)),
        ).0
    }
}

pub open spec fn similar_all(ix: IndexView, changed: Seq<SymbolView>, min: Ratio) -> Seq<SimilarView>
    decreases changed.len(),
{
    if changed.len() == 0 {
        Seq::empty()
    } else {
        similar_all(ix, changed.drop_last(), min) + similar_for(ix, changed.last(), min)
    }
}

/// The same finding twice: same changed symbol, similar symbol and file.
pub open spec fn same_finding(a: SimilarView, b: SimilarView) -> bool {
    a.changed_symbol == b.changed_symbol && a.similar_symbol == b.similar_symbol && a.file_path
        == b.file_path
}

/// Drops each finding equal to the one kept just before it.
pub open spec fn dedup_findings(s: Seq<SimilarView>) -> Seq<SimilarView>
    decreases s.len(),
{
    if s.len() == 0 {
        Seq::empty()
    } else {
        let r = dedup_findings(s.drop_last());
        if r.len() > 0 && same_finding(s.last(), r.last()) {
            r
        } else {
            r.push(s.last())
        }
    }
}

pub open spec fn scored(s: Seq<SimilarView>) -> Seq<(Ratio, SimilarView)> {
    s.map_values(|x: SimilarView| (x.similarity, x))
}

/// All findings, most similar first (stable), without adjacent repeats.
pub open spec fn find_similar_spec(ix: IndexView, changed: Seq<SymbolView>, min: Ratio) -> Seq<SimilarView> {
    dedup_findings(sort_desc(scored(similar_all(ix, changed, min))).map_values(|p: (Ratio, SimilarView)| p.1))
}

fn finding(changed: &Symbol, sym: &Symbol, sim: Ratio, kind: SimilarityKind) -> (r: SimilarCode)
    ensures
        r@ == similar_to(changed@, sym@, sim, kind),
{
    SimilarCode {
        changed_symbol: changed.qualified_name.clone(),
        similar_symbol: sym.qualified_name.clone(),
        file_path: sym.file_path.clone(),
        line_range: sym.line_range,
        similarity: sim,
        kind,
    }
}

pub open spec fn findings_view(v: Seq<SimilarCode>) -> Seq<SimilarView> {
    v.map_values(|x: SimilarCode| x@)
}

/// Every finding's similarity is a fraction between zero and one.
pub open spec fn findings_wf(v: Seq<SimilarView>) -> bool {
    forall|i: int| 0 <= i < v.len() ==> (#[trigger] v[i]).similarity.wf() && v[i].similarity.num <= v[i].similarity.den
}

impl SimilarityIndex {
    fn lookup_symbol(&self, key: &String) -> (r: Option<&Symbol>)
        ensures
            match r {
                Some(s) => symbol_at(self@, key@) == Some(s@),
                None => symbol_at(self@, key@) is None,
            },
    {
        let i = find_symbol(&self.symbols, key);
        proof {
            lemma_find_key_range(symtab_view(self.symbols@), key@, 0);
        }
        if i < self.symbols.len() {
            Some(&self.symbols[i].1)
        } else {
            None
        }
    }

    fn push_exact(&self, changed: &Symbol, changed_key: &String, out: &mut Vec<SimilarCode>)
        requires
            changed_key@ == symbol_key(changed@),
            findings_wf(findings_view(old(out)@)),
        ensures
            findings_wf(findings_view(final(out)@)),
            findings_view(final(out)@) == findings_view(old(out)@) + exact_matches(
                self@,
                changed@,
                keys_with_hash(self@, changed@.body_hash),
            ),
    {
        let ghost base = findings_view(out@);
        let i = find_hash(&self.hash_index, &changed.body_hash);
        proof {
            lemma_find_key_range(hashtab_view(self.hash_index@), changed@.body_hash, 0);
        }
        if i >= self.hash_index.len() {
            proof {
                assert(findings_view(out@) =~= base + exact_matches(self@, changed@, Seq::empty()));
            }
            return;
        }
        let keys = &self.hash_index[i].1;
        let ghost kv = keyed_strings(keys@);
        assert(kv == keys_with_hash(self@, changed@.body_hash));
        let mut k: usize = 0;
        while k < keys.len()
            invariant
                k <= keys@.len(),
                kv == keyed_strings(keys@),
                changed_key@ == symbol_key(changed@),
                findings_wf(findings_view(out@)),
                findings_view(out@) == base + exact_matches(self@, changed@, kv.take(k as int)),
            decreases keys.len() - k,
        {
            let ghost prev = findings_view(out@);
            proof {
                assert(kv.take(k + 1).drop_last() =~= kv.take(k as int));
                assert(kv.take(k + 1).last() == keys@[k as int]@);
            }
            if !(keys[k] == *changed_key) {
                match self.lookup_symbol(&keys[k]) {
                    Some(sym) => {
                        out.push(finding(changed, sym, Ratio { num: 1, den: 1 }, SimilarityKind::ExactDuplicate));
                        proof {
                            assert(findings_view(out@) =~= prev.push(similar_to(changed@, sym@, Ratio { num: 1, den: 1 }, SimilarityKind::ExactDuplicate)));
                        }
                    },
                    None => {},
                }
            }
            k = k + 1;
        }
        proof {
            assert(kv.take(keys@.len() as int) =~= kv);
        }
    }
}

fn near_threshold(approx: Ratio, min: Ratio) -> (r: bool)
    requires
        approx.num <= 64,
        approx.den == 64,
    ensures
        r == near_enough(approx, min),
{
    proof {
        assert(approx.num * min.den <= 64 * 0xffff_ffff_ffff_ffff) by (nonlinear_arith)
            requires
                approx.num <= 64,
                min.den <= 0xffff_ffff_ffff_ffff,
        ;
        assert(min.num * approx.den <= 0xffff_ffff_ffff_ffff * 64) by (nonlinear_arith)
            requires
                approx.den == 64,
                min.num <= 0xffff_ffff_ffff_ffff,
        ;
    }
    let lhs = (approx.num as u128) * (min.den as u128) * 10 + (min.den as u128) * (approx.den as u128);
    let rhs = 10 * (min.num as u128) * (approx.den as u128);
    proof {
        assert((approx.num * min.den * 10 >= (10 * min.num - min.den) * approx.den) == (approx.num
            * min.den * 10 + min.den * approx.den >= 10 * min.num * approx.den)) by (nonlinear_arith);
    }
    lhs >= rhs
}

proof fn lemma_agreeing_le(a: Seq<u64>, b: Seq<u64>, k: int)
    requires
        0 <= k,
    ensures
        agreeing(a, b, k) <= k,
    decreases k,
{
    if k > 0 {
        lemma_agreeing_le(a, b, k - 1);
    }
}

impl SimilarityIndex {
    fn estimate(&self, changed_key: &String, cmh: &Vec<u64>, min: Ratio) -> (r: Vec<(Ratio, usize)>)
        requires
            index_wf(self@),
            cmh@.len() == MINHASH_SIZE,
        ensures
            r@ == estimate_candidates(self@, changed_key@, cmh@, min, self@.sketches.len() as int),
            all_wf(r@),
            forall|t: int| 0 <= t < r@.len() ==> (#[trigger] r@[t]).1 < self@.sketches.len(),
    {
        let ghost sk = self@.sketches;
        assert(sk == sketches_view(self.sketches@));
        let mut out: Vec<(Ratio, usize)> = Vec::new();
        let mut k: usize = 0;
        while k < self.sketches.len()
            invariant
                k <= self.sketches@.len(),
                sk == sketches_view(self.sketches@),
                sk == self@.sketches,
                index_wf(self@),
                cmh@.len() == MINHASH_SIZE,
                out@ == estimate_candidates(self@, changed_key@, cmh@, min, k as int),
                all_wf(out@),
                forall|t: int| 0 <= t < out@.len() ==> (#[trigger] out@[t]).1 < k,
            decreases self.sketches.len() - k,
        {
            let e = &self.sketches[k];
            assert(sk[k as int] == (e.key@, e.shingles@, e.minhash@));
            assert(e.minhash@.len() == MINHASH_SIZE);
            let approx = minhash_similarity(cmh, &e.minhash);
            proof {
                lemma_agreeing_le(cmh@, e.minhash@, MINHASH_SIZE as int);
            }
            if !(e.key == *changed_key) && near_threshold(approx, min) {
                out.push((approx, k));
            }
            k = k + 1;
        }
        out
    }
}

impl SimilarityIndex {
    fn push_verified(
        &self,
        changed: &Symbol,
        cs: &Vec<u64>,
        min: Ratio,
        top: &Vec<(Ratio, usize)>,
        out: &mut Vec<SimilarCode>,
    )
        requires
            index_wf(self@),
            sketch_ok(cs@),
            forall|t: int| 0 <= t < top@.len() ==> (#[trigger] top@[t]).1 < self@.sketches.len(),
            findings_wf(findings_view(old(out)@)),
        ensures
            findings_wf(findings_view(final(out)@)),
            findings_view(final(out)@) == findings_view(old(out)@) + verify_candidates(
                self@,
                changed@,
                cs@,
                min,
                top@,
            ),
    {
        let ghost base = findings_view(out@);
        let ghost sk = self@.sketches;
        assert(sk == sketches_view(self.sketches@));
        let mut count: usize = 0;
        let mut k: usize = 0;
        while k < top.len()
            invariant
                k <= top@.len(),
                index_wf(self@),
                sketch_ok(cs@),
                sk == sketches_view(self.sketches@),
                sk == self@.sketches,
                forall|t: int| 0 <= t < top@.len() ==> (#[trigger] top@[t]).1 < self@.sketches.len(),
                findings_wf(findings_view(out@)),
                findings_view(out@) == base + verify_candidates(self@, changed@, cs@, min, top@.take(k as int)),
                count == verify_candidates(self@, changed@, cs@, min, top@.take(k as int)).len(),
            decreases top.len() - k,
        {
            let ghost prev = findings_view(out@);
            proof {
                assert(top@.take(k + 1).drop_last() =~= top@.take(k as int));
                assert(top@.take(k + 1).last() == top@[k as int]);
            }
            if count >= 10 {
                k = k + 1;
                continue;
            }
            let idx = top[k].1;
            assert(top@[k as int].1 < sk.len());
            let e = &self.sketches[idx];
            assert(sk[idx as int] == (e.key@, e.shingles@, e.minhash@));
            match self.lookup_symbol(&e.key) {
                Some(sym) => {
                    if sym.kind == changed.kind && !hash_eq(&sym.body_hash, &changed.body_hash)
                        && e.shingles.len() >= 3 {
                        let sim = jaccard_similarity(cs, &e.shingles);
                        if min.le_ratio(&sim) && sim.num < sim.den {
                            out.push(finding(changed, sym, sim, SimilarityKind::StructurallySimilar));
                            count = count + 1;
                            proof {
                                assert(findings_view(out@) =~= prev.push(similar_to(changed@, sym@, sim, SimilarityKind::StructurallySimilar)));
                            }
                        }
                    }
                },
                None => {},
            }
            k = k + 1;
        }
        proof {
            assert(top@.take(top@.len() as int) =~= top@);
        }
    }

    fn push_patterns(&self, changed: &Symbol, changed_key: &String, out: &mut Vec<SimilarCode>)
        requires
            index_wf(self@),
            changed@.wf(),
            changed_key@ == symbol_key(changed@),
            findings_wf(findings_view(old(out)@)),
        ensures
            findings_wf(findings_view(final(out)@)),
            findings_view(final(out)@) == findings_view(old(out)@) + pattern_matches(
                self@,
                changed@,
                stem_pairs(self@, stems_spec(changed@.name)),
            ).0,
    {
        let ghost base = findings_view(out@);
        let stems = name_stems(changed.name.as_str());
        let ghost st = keyed_strings(stems@);
        // the keys to consider, stem by stem
        let mut keys: Vec<String> = Vec::new();
        let mut si: usize = 0;
        while si < stems.len()
            invariant
                si <= stems@.len(),
                st == keyed_strings(stems@),
                keyed_strings(keys@) == stem_pairs(self@, st.take(si as int)),
            decreases stems.len() - si,
        {
            let stem = &stems[si];
            let ghost prev = keyed_strings(keys@);
            proof {
                assert(st.take(si + 1).drop_last() =~= st.take(si as int));
                assert(st.take(si + 1).last() == stem@);
                assert(self@.stem_index == stemtab_view(self.stem_index@));
                lemma_find_key_range(self@.stem_index, stem@, 0);
            }
            let i = find_stem(&self.stem_index, stem);
            if byte_len(stem.as_str()) >= 4 && i < self.stem_index.len() && self.stem_index[i].1.len() <= 50 {
                let list = &self.stem_index[i].1;
                let mut t: usize = 0;
                while t < list.len()
                    invariant
                        t <= list@.len(),
                        keyed_strings(keys@) == prev + keyed_strings(list@).take(t as int),
                    decreases list.len() - t,
                {
                    let ghost kv = keyed_strings(keys@);
                    keys.push(list[t].clone());
                    proof {
                        assert(keyed_strings(keys@) =~= kv.push(list@[t as int]@));
                        assert(keyed_strings(list@).take(t + 1) =~= keyed_strings(list@).take(t as int).push(list@[t as int]@));
                    }
                    t = t + 1;
                }
                proof {
                    assert(keyed_strings(list@).take(list@.len() as int) =~= keyed_strings(list@));
                    assert(stem_keys(self@, stem@) == keyed_strings(list@));
                }
            } else {
                proof {
                    assert(stem_keys(self@, stem@) =~= Seq::<Seq<char>>::empty());
                    assert(keyed_strings(keys@) =~= prev + stem_keys(self@, stem@));
                }
            }
            si = si + 1;
        }
        proof {
            assert(st.take(stems@.len() as int) =~= st);
        }
        let ghost kv = keyed_strings(keys@);
        let mut found: Vec<String> = Vec::new();
        let mut count: usize = 0;
        let mut k: usize = 0;
        while k < keys.len()
            invariant
                k <= keys@.len(),
                index_wf(self@),
                changed@.wf(),
                changed_key@ == symbol_key(changed@),
                findings_wf(findings_view(out@)),
                kv == keyed_strings(keys@),
                findings_view(out@) == base + pattern_matches(self@, changed@, kv.take(k as int)).0,
                keyed_strings(found@) == pattern_matches(self@, changed@, kv.take(k as int)).1,
                count == pattern_matches(self@, changed@, kv.take(k as int)).0.len(),
            decreases keys.len() - k,
        {
            let key = &keys[k];
            let ghost prev = findings_view(out@);
            let ghost pf = keyed_strings(found@);
            proof {
                assert(kv.take(k + 1).drop_last() =~= kv.take(k as int));
                assert(kv.take(k + 1).last() == key@);
            }
            if count < 5 && !(*key == *changed_key) && !contains_string(&found, key) {
                match self.lookup_symbol(key) {
                    Some(sym) => {
                        proof {
                            assert(self@.symbols == symtab_view(self.symbols@));
                            lemma_find_key_range(self@.symbols, key@, 0);
                        }
                        if sym.kind == changed.kind && byte_len(changed.normalized_body.as_str()) <= 3000
                            && byte_len(sym.normalized_body.as_str()) <= 3000 {
                            let bs = changed.body_similarity(sym);
                            if bs.exceeds(3, 10) {
                                found.push(key.clone());
                                out.push(finding(changed, sym, bs, SimilarityKind::NamePattern));
                                count = count + 1;
                                proof {
                                    assert(findings_view(out@) =~= prev.push(similar_to(changed@, sym@, bs, SimilarityKind::NamePattern)));
                                    assert(keyed_strings(found@) =~= pf.push(key@));
                                }
                            }
                        }
                    },
                    None => {},
                }
            }
            k = k + 1;
        }
        proof {
            assert(kv.take(keys@.len() as int) =~= kv);
        }
    }
}

fn contains_string(v: &Vec<String>, x: &String) -> (r: bool)
    ensures
        r == keyed_strings(v@).contains(x@),
{
    let mut i: usize = 0;
    while i < v.len()
        invariant
            i <= v@.len(),
            forall|k: int| 0 <= k < i ==> v@[k]@ != x@,
        decreases v.len() - i,
    {
        if v[i] == *x {
            assert(keyed_strings(v@)[i as int] == x@);
            return true;
        }
        i = i + 1;
    }
    proof {
        if keyed_strings(v@).contains(x@) {
            let k = choose|k: int| 0 <= k < keyed_strings(v@).len() && keyed_strings(v@)[k] == x@;
            assert(v@[k]@ == x@);
        }
    }
    false
}

impl SimilarityIndex {
    fn similar_for_one(&self, changed: &Symbol, min: Ratio, out: &mut Vec<SimilarCode>)
        requires
            index_wf(self@),
            changed@.wf(),
            changed@.comparable(),
            findings_wf(findings_view(old(out)@)),
        ensures
            findings_wf(findings_view(final(out)@)),
            findings_view(final(out)@) == findings_view(old(out)@) + similar_for(self@, changed@, min),
    {
        let ghost base = findings_view(out@);
        let changed_key = symbol_key_of(changed);
        self.push_exact(changed, &changed_key, out);
        let ghost after1 = findings_view(out@);
        let cs = compute_shingles(changed.normalized_body.as_str(), 4);
        if cs.len() < 3 {
            return;
        }
        proof {
            lemma_shingles_small(changed@.normalized_body, 4);
            crate::text::lemma_bytes_at_least_chars(changed@.normalized_body);
        }
        let cmh = compute_minhash(&cs);
        let cands = self.estimate(&changed_key, &cmh, min);
        let ghost cv = cands@;
        proof {
            lemma_sort_desc_len(cv);
            lemma_sort_desc_all(cv, |x: (Ratio, usize)| x.1 < self@.sketches.len());
        }
        let mut sorted = sort_by_score_desc(cands);
        if sorted.len() > 100 {
            sorted.truncate(100);
        }
        let ghost top = sorted@;
        proof {
            let full = sort_desc(cv);
            if full.len() > 100 {
                assert(top =~= full.take(100));
            }
            assert forall|t: int| 0 <= t < top.len() implies (#[trigger] top[t]).1 < self@.sketches.len() by {
                assert(top[t] == full[t]);
            }
        }
        self.push_verified(changed, &cs, min, &sorted, out);
        self.push_patterns(changed, &changed_key, out);
    }

    /// Finds code similar to the changed symbols: other symbols with the
    /// same body; symbols whose shingle sets have Jaccard similarity at least
    /// `min_similarity` (short-listed by MinHash, at most 10 per symbol);
    /// symbols sharing a name stem with body similarity above 3/10 (at most
    /// 5 per symbol). The findings are ordered by similarity, best first,
    /// and adjacent repeats are dropped.
    pub fn find_similar(&self, changed_symbols: &[Symbol], min_similarity: Ratio) -> (r: Vec<SimilarCode>)
        requires
            index_wf(self@),
            forall|i: int|
                0 <= i < changed_symbols@.len() ==> (#[trigger] changed_symbols@[i])@.wf()
                    && changed_symbols@[i]@.comparable(),
        ensures
            findings_view(r@) == find_similar_spec(self@, all_syms_view(changed_symbols@), min_similarity),
            findings_wf(findings_view(r@)),
    {
        let ghost cv = all_syms_view(changed_symbols@);
        let mut results: Vec<SimilarCode> = Vec::new();
        proof {
            assert(findings_view(results@) =~= similar_all(self@, cv.take(0), min_similarity));
        }
        let mut i: usize = 0;
        while i < changed_symbols.len()
            invariant
                i <= changed_symbols@.len(),
                cv == all_syms_view(changed_symbols@),
                index_wf(self@),
                forall|k: int|
                    0 <= k < changed_symbols@.len() ==> (#[trigger] changed_symbols@[k])@.wf()
                        && changed_symbols@[k]@.comparable(),
                findings_view(results@) == similar_all(self@, cv.take(i as int), min_similarity),
                findings_wf(findings_view(results@)),
            decreases changed_symbols.len() - i,
        {
            let c = &changed_symbols[i];
            assert(c@ == changed_symbols@[i as int]@);
            self.similar_for_one(c, min_similarity, &mut results);
            proof {
                assert(cv.take(i + 1).drop_last() =~= cv.take(i as int));
                assert(cv.take(i + 1).last() == c@);
            }
            i = i + 1;
        }
        proof {
            assert(cv.take(changed_symbols@.len() as int) =~= cv);
        }
        let ghost all = findings_view(results@);
        // order by similarity, best first
        let mut keyed: Vec<(Ratio, usize)> = Vec::new();
        let mut t: usize = 0;
        while t < results.len()
            invariant
                t <= results@.len(),
                all == findings_view(results@),
                findings_wf(all),
                keyed@ == Seq::new(t as nat, |k: int| (all[k].similarity, k as usize)),
                all_wf(keyed@),
            decreases results.len() - t,
        {
            keyed.push((results[t].similarity, t));
            t = t + 1;
            proof {
                assert(keyed@ =~= Seq::new(t as nat, |k: int| (all[k].similarity, k as usize)));
            }
        }
        let ghost kv = keyed@;
        let ghost f = |k: usize| all[k as int];
        proof {
            lemma_sort_desc_len(kv);
            lemma_sort_desc_all(kv, |x: (Ratio, usize)| x.1 < all.len());
            lemma_sort_desc_map(kv, f);
            assert(map_second(kv, f) =~= scored(all));
        }
        let sorted = sort_by_score_desc(keyed);
        let ghost ordered = sort_desc(scored(all)).map_values(|p: (Ratio, SimilarView)| p.1);
        assert(ordered.len() == sorted@.len());
        let mut out: Vec<SimilarCode> = Vec::new();
        let mut j: usize = 0;
        while j < sorted.len()
            invariant
                j <= sorted@.len(),
                sorted@ == sort_desc(kv),
                all == findings_view(results@),
                forall|t: int| 0 <= t < sorted@.len() ==> (#[trigger] sorted@[t]).1 < all.len(),
                map_second(sorted@, f) == sort_desc(scored(all)),
                f == (|k: usize| all[k as int]),
                ordered == sort_desc(scored(all)).map_values(|p: (Ratio, SimilarView)| p.1),
                ordered.len() == sorted@.len(),
                findings_view(out@) == dedup_findings(ordered.take(j as int)),
                findings_wf(all),
                findings_wf(findings_view(out@)),
            decreases sorted.len() - j,
        {
            let idx = sorted[j].1;
            assert(sorted@[j as int].1 < all.len());
            let x = &results[idx];
            proof {
                assert(ordered[j as int] == map_second(sorted@, f)[j as int].1);
                assert(ordered[j as int] == x@);
                assert(ordered.take(j + 1).drop_last() =~= ordered.take(j as int));
                assert(ordered.take(j + 1).last() == x@);
            }
            let ghost prev = findings_view(out@);
            let keep = if out.len() > 0 {
                let last = &out[out.len() - 1];
                !(x.changed_symbol == last.changed_symbol && x.similar_symbol == last.similar_symbol
                    && x.file_path == last.file_path)
            } else {
                true
            };
            if keep {
                out.push(x.duplicate());
                proof {
                    assert(findings_view(out@) =~= prev.push(x@));
                    assert(all[idx as int] == x@);
                }
            }
            j = j + 1;
        }
        proof {
            assert(ordered.take(sorted@.len() as int) =~= ordered);
        }
        out
    }
}


// ------------------------------------------------ exact duplicates are found

/// The value stored under key `k`, if any.
pub open spec fn map_get<K, V>(m: Seq<(K, V)>, k: K) -> Option<V> {
    let i = find_key(m, k, 0);
    if i < m.len() {
        Some(m[i].1)
    } else {
        None
    }
}

proof fn lemma_find_key_first<K, V>(m: Seq<(K, V)>, k: K, i: int, j: int)
    requires
        0 <= i <= j < find_key(m, k, i),
        find_key(m, k, i) <= m.len(),
    ensures
        m[j].0 != k,
    decreases j - i,
{
    if i < j {
        assert(m[i].0 != k);
        lemma_find_key_first(m, k, i + 1, j);
    } else {
        assert(m[i].0 != k);
    }
}

proof fn lemma_find_key_same_keys<K, V>(m: Seq<(K, V)>, m2: Seq<(K, V)>, k: K, i: int)
    requires
        m.len() == m2.len(),
        forall|t: int| 0 <= t < m.len() ==> (#[trigger] m[t]).0 == m2[t].0,
    ensures
        find_key(m, k, i) == find_key(m2, k, i),
    decreases m.len() - i,
{
    if 0 <= i < m.len() && m[i].0 != k {
        lemma_find_key_same_keys(m, m2, k, i + 1);
    }
}

proof fn lemma_find_key_push<K, V>(m: Seq<(K, V)>, e: (K, V), k: K, i: int)
    requires
        0 <= i <= m.len(),
    ensures
        find_key(m, k, i) < m.len() ==> find_key(m.push(e), k, i) == find_key(m, k, i),
        find_key(m, k, i) >= m.len() ==> find_key(m.push(e), k, i) == (if e.0 == k { m.len() as int } else { m.len() + 1int }),
    decreases m.len() - i,
{
    let m2 = m.push(e);
    if i < m.len() {
        assert(m2[i] == m[i]);
        if m[i].0 != k {
            lemma_find_key_push(m, e, k, i + 1);
        }
    } else {
        assert(m2[i] == e);
        if e.0 != k {
            assert(find_key(m2, k, i + 1) == m2.len());
        }
    }
}

proof fn lemma_map_insert_get<K, V>(m: Seq<(K, V)>, k: K, v: V, k2: K)
    ensures
        map_get(map_insert(m, k, v), k2) == (if k2 == k { Some(v) } else { map_get(m, k2) }),
{
    let i = find_key(m, k, 0);
    lemma_find_key_range(m, k, 0);
    lemma_find_key_range(m, k2, 0);
    if i < m.len() {
        let m2 = m.update(i, (k, v));
        lemma_find_key_same_keys(m, m2, k2, 0);
        let f = find_key(m, k2, 0);
        if k2 == k {
            assert(f == i);
        } else if f < m.len() {
            assert(f != i);
            assert(m2[f] == m[f]);
        }
    } else {
        lemma_find_key_push(m, (k, v), k2, 0);
        let m2 = m.push((k, v));
        lemma_find_key_push(m, (k, v), k, 0);
        let f = find_key(m, k2, 0);
        if f < m.len() {
            assert(m2[f] == m[f]);
        }
    }
}

proof fn lemma_map_append_is_insert<K, X>(m: Seq<(K, Seq<X>)>, k: K, x: X)
    ensures
        map_append(m, k, x) == map_insert(m, k, match map_get(m, k) {
            Some(l) => l.push(x),
            None => seq![x],
        }),
{
}

/// Every symbol of the built index is stored under its own key.
proof fn lemma_build_keys(syms: Seq<SymbolView>)
    ensures
        forall|j: int|
            0 <= j < build_spec(syms).symbols.len() ==> symbol_key((#[trigger] build_spec(syms).symbols[j]).1)
                == build_spec(syms).symbols[j].0,
    decreases syms.len(),
{
    if syms.len() > 0 {
        lemma_build_keys(syms.drop_last());
        let m = build_spec(syms.drop_last()).symbols;
        let k = symbol_key(syms.last());
        let i = find_key(m, k, 0);
        lemma_find_key_range(m, k, 0);
        let m2 = build_spec(syms).symbols;
        assert(m2 == map_insert(m, k, syms.last()));
        assert forall|j: int| 0 <= j < m2.len() implies symbol_key((#[trigger] m2[j]).1) == m2[j].0 by {
            if j < m.len() && j != i {
                assert(m2[j] == m[j]);
            }
        }
    }
}

proof fn lemma_symbol_at_key(syms: Seq<SymbolView>, k: Seq<char>)
    ensures
        symbol_at(build_spec(syms), k) matches Some(s) ==> symbol_key(s) == k,
{
    let ix = build_spec(syms);
    lemma_build_keys(syms);
    lemma_find_key_range(ix.symbols, k, 0);
    let f = find_key(ix.symbols, k, 0);
    if f < ix.symbols.len() {
        assert(symbol_key(ix.symbols[f].1) == ix.symbols[f].0);
    }
}

/// With distinct keys, the symbol stored under a symbol's key is that symbol.
proof fn lemma_symbol_at_own(syms: Seq<SymbolView>, j: int)
    requires
        0 <= j < syms.len(),
        forall|a: int, b: int| 0 <= a < b < syms.len() ==> symbol_key(#[trigger] syms[a]) != symbol_key(#[trigger] syms[b]),
    ensures
        symbol_at(build_spec(syms), symbol_key(syms[j])) == Some(syms[j]),
    decreases syms.len(),
{
    let init = syms.drop_last();
    let m = build_spec(init).symbols;
    lemma_map_insert_get(m, symbol_key(syms.last()), syms.last(), symbol_key(syms[j]));
    if j < syms.len() - 1 {
        assert forall|a: int, b: int| 0 <= a < b < init.len() implies symbol_key(#[trigger] init[a]) != symbol_key(#[trigger] init[b]) by {
            assert(init[a] == syms[a] && init[b] == syms[b]);
        }
        assert(init[j] == syms[j]);
        lemma_symbol_at_own(init, j);
        assert(symbol_key(syms[j]) != symbol_key(syms[syms.len() - 1]));
    }
}

/// A symbol's key is listed under its body hash.
proof fn lemma_hash_lists_key(syms: Seq<SymbolView>, j: int)
    requires
        0 <= j < syms.len(),
    ensures
        keys_with_hash(build_spec(syms), syms[j].body_hash).contains(symbol_key(syms[j])),
    decreases syms.len(),
{
    let init = syms.drop_last();
    let m = build_spec(init).hash_index;
    let h = syms.last().body_hash;
    let key = symbol_key(syms.last());
    let h2 = syms[j].body_hash;
    lemma_map_append_is_insert(m, h, key);
    let newl = match map_get(m, h) {
        Some(l) => l.push(key),
        None => seq![key],
    };
    lemma_map_insert_get(m, h, newl, h2);
    let old2 = match map_get(m, h2) {
        Some(l) => l,
        None => Seq::empty(),
    };
    if j < syms.len() - 1 {
        assert(init[j] == syms[j]);
        lemma_hash_lists_key(init, j);
        assert(keys_with_hash(build_spec(init), h2) == old2);
        let w = choose|w: int| 0 <= w < old2.len() && old2[w] == symbol_key(syms[j]);
        if h2 == h {
            assert(newl[w] == symbol_key(syms[j]));
        }
    } else {
        assert(newl[newl.len() - 1] == key);
    }
}


/// Each symbol the index holds is stored under its own key.
pub open spec fn keys_honest(ix: IndexView) -> bool {
    forall|k: Seq<char>| (#[trigger] symbol_at(ix, k)) matches Some(s) ==> symbol_key(s) == k
}

pub open spec fn one() -> Ratio {
    Ratio { num: 1, den: 1 }
}

/// The exact-duplicate finding of `s2` for the changed symbol `s1`.
pub open spec fn duplicate_finding(s1: SymbolView, s2: SymbolView) -> SimilarView {
    similar_to(s1, s2, one(), SimilarityKind::ExactDuplicate)
}

proof fn lemma_same_key(ix: IndexView, k: Seq<char>, s2: SymbolView, y: SimilarView, c: SymbolView)
    requires
        keys_honest(ix),
        symbol_at(ix, symbol_key(s2)) == Some(s2),
        symbol_at(ix, k) is Some,
        same_finding(y, duplicate_finding(c, s2)),
        y.similar_symbol == (symbol_at(ix, k)->0).qualified_name,
        y.file_path == (symbol_at(ix, k)->0).file_path,
    ensures
        symbol_at(ix, k) == Some(s2),
{
    let s = symbol_at(ix, k)->0;
    assert(symbol_key(s) == k);
    assert(symbol_key(s) == symbol_key(s2));
}

proof fn lemma_exact_contains(ix: IndexView, c: SymbolView, keys: Seq<Seq<char>>, k: Seq<char>)
    requires
        keys.contains(k),
        k != symbol_key(c),
        symbol_at(ix, k) is Some,
    ensures
        exact_matches(ix, c, keys).contains(similar_to(c, symbol_at(ix, k)->0, one(), SimilarityKind::ExactDuplicate)),
    decreases keys.len(),
{
    let x = similar_to(c, symbol_at(ix, k)->0, one(), SimilarityKind::ExactDuplicate);
    let r = exact_matches(ix, c, keys.drop_last());
    if keys.last() == k {
        assert(exact_matches(ix, c, keys) == r.push(x));
        assert(r.push(x)[r.len() as int] == x);
    } else {
        let w = choose|w: int| 0 <= w < keys.len() && keys[w] == k;
        assert(keys.drop_last()[w] == k);
        lemma_exact_contains(ix, c, keys.drop_last(), k);
        let v = choose|v: int| 0 <= v < r.len() && r[v] == x;
        let full = exact_matches(ix, c, keys);
        if full != r {
            assert(full[v] == x);
        }
    }
}

proof fn lemma_exact_same(ix: IndexView, c: SymbolView, keys: Seq<Seq<char>>, s2: SymbolView)
    requires
        keys_honest(ix),
        symbol_at(ix, symbol_key(s2)) == Some(s2),
    ensures
        forall|i: int| 0 <= i < exact_matches(ix, c, keys).len() ==> (same_finding(#[trigger] exact_matches(ix, c, keys)[i], duplicate_finding(c, s2))
            ==> exact_matches(ix, c, keys)[i] == duplicate_finding(c, s2)),
    decreases keys.len(),
{
    if keys.len() > 0 {
        lemma_exact_same(ix, c, keys.drop_last(), s2);
        let r = exact_matches(ix, c, keys.drop_last());
        let full = exact_matches(ix, c, keys);
        let k = keys.last();
        assert forall|i: int| 0 <= i < full.len() implies (same_finding(#[trigger] full[i], duplicate_finding(c, s2)) ==> full[i] == duplicate_finding(c, s2)) by {
            if i < r.len() {
                assert(full[i] == r[i]);
            } else if same_finding(full[i], duplicate_finding(c, s2)) {
                lemma_same_key(ix, k, s2, full[i], c);
            }
        }
    }
}

proof fn lemma_candidates_differ(ix: IndexView, c: SymbolView, cs: Seq<u64>, min: Ratio, cands: Seq<(Ratio, usize)>, s2: SymbolView)
    requires
        keys_honest(ix),
        symbol_at(ix, symbol_key(s2)) == Some(s2),
        s2.body_hash == c.body_hash,
    ensures
        forall|i: int| 0 <= i < verify_candidates(ix, c, cs, min, cands).len() ==> !same_finding(
            #[trigger] verify_candidates(ix, c, cs, min, cands)[i],
            duplicate_finding(c, s2),
        ),
    decreases cands.len(),
{
    if cands.len() > 0 {
        lemma_candidates_differ(ix, c, cs, min, cands.drop_last(), s2);
        let r = verify_candidates(ix, c, cs, min, cands.drop_last());
        let full = verify_candidates(ix, c, cs, min, cands);
        let e = ix.sketches[cands.last().1 as int];
        assert forall|i: int| 0 <= i < full.len() implies !same_finding(#[trigger] full[i], duplicate_finding(c, s2)) by {
            if i < r.len() {
                assert(full[i] == r[i]);
            } else if same_finding(full[i], duplicate_finding(c, s2)) {
                lemma_same_key(ix, e.0, s2, full[i], c);
            }
        }
    }
}

proof fn lemma_patterns_one(ix: IndexView, c: SymbolView, keys: Seq<Seq<char>>, s2: SymbolView)
    requires
        keys_honest(ix),
        symbol_at(ix, symbol_key(s2)) == Some(s2),
        s2.body_hash == c.body_hash,
    ensures
        forall|i: int| 0 <= i < pattern_matches(ix, c, keys).0.len() ==> (same_finding(
            #[trigger] pattern_matches(ix, c, keys).0[i],
            duplicate_finding(c, s2),
        ) ==> pattern_matches(ix, c, keys).0[i].similarity == one()),
    decreases keys.len(),
{
    if keys.len() > 0 {
        lemma_patterns_one(ix, c, keys.drop_last(), s2);
        let r = pattern_matches(ix, c, keys.drop_last()).0;
        let full = pattern_matches(ix, c, keys).0;
        let k = keys.last();
        assert forall|i: int| 0 <= i < full.len() implies (same_finding(#[trigger] full[i], duplicate_finding(c, s2)) ==> full[i].similarity == one()) by {
            if i < r.len() {
                assert(full[i] == r[i]);
            } else if same_finding(full[i], duplicate_finding(c, s2)) {
                lemma_same_key(ix, k, s2, full[i], c);
            }
        }
    }
}


proof fn lemma_dedup_from(s: Seq<SimilarView>)
    ensures
        forall|i: int| 0 <= i < dedup_findings(s).len() ==> s.contains(#[trigger] dedup_findings(s)[i]),
    decreases s.len(),
{
    if s.len() > 0 {
        let init = s.drop_last();
        lemma_dedup_from(init);
        let r = dedup_findings(init);
        let d = dedup_findings(s);
        assert forall|i: int| 0 <= i < d.len() implies s.contains(#[trigger] d[i]) by {
            if i < r.len() {
                assert(d[i] == r[i]);
                let w = choose|w: int| 0 <= w < init.len() && init[w] == r[i];
                assert(s[w] == init[w]);
            } else {
                assert(d[i] == s[s.len() - 1]);
            }
        }
    }
}

/// A finding is kept when nothing before it is the same finding.
proof fn lemma_dedup_keeps(t: Seq<SimilarView>, x: SimilarView, i: int)
    requires
        0 <= i < t.len(),
        t[i] == x,
        forall|k: int| 0 <= k < i ==> !same_finding(#[trigger] t[k], x),
    ensures
        dedup_findings(t).contains(x),
    decreases t.len(),
{
    let init = t.drop_last();
    let r = dedup_findings(init);
    if i == t.len() - 1 {
        if r.len() > 0 {
            lemma_dedup_from(init);
            assert(init.contains(r[r.len() - 1]));
            let w = choose|w: int| 0 <= w < init.len() && init[w] == r[r.len() - 1];
            assert(t[w] == init[w]);
            assert(!same_finding(t[w], x));
        }
        let d = dedup_findings(t);
        assert(d == r.push(x));
        assert(d[r.len() as int] == x);
    } else {
        assert forall|k: int| 0 <= k < i implies !same_finding(#[trigger] init[k], x) by {
            assert(init[k] == t[k]);
        }
        assert(init[i] == x);
        lemma_dedup_keeps(init, x, i);
        let w = choose|w: int| 0 <= w < r.len() && r[w] == x;
        let d = dedup_findings(t);
        assert(d[w] == x);
    }
}

/// Position of the first score below `r`, from `k` on.
pub open spec fn first_lt(s: Seq<(Ratio, SimilarView)>, r: Ratio, k: int) -> int
    decreases s.len() - k,
{
    if k < 0 || k >= s.len() {
        s.len() as int
    } else if s[k].0.lt(r) {
        k
    } else {
        first_lt(s, r, k + 1)
    }
}

proof fn lemma_first_lt(s: Seq<(Ratio, SimilarView)>, r: Ratio, k: int)
    requires
        0 <= k <= s.len(),
    ensures
        k <= first_lt(s, r, k) <= s.len(),
        forall|j: int| k <= j < first_lt(s, r, k) ==> !(#[trigger] s[j]).0.lt(r),
        first_lt(s, r, k) < s.len() ==> s[first_lt(s, r, k)].0.lt(r),
    decreases s.len() - k,
{
    if k < s.len() && !s[k].0.lt(r) {
        lemma_first_lt(s, r, k + 1);
    }
}

proof fn lemma_below_one(a: Ratio, z: Ratio)
    requires
        a.lt(z),
        !a.lt(one()),
    ensures
        !z.lt(one()),
{
    if z.lt(one()) {
        assert(a.num * z.den >= z.num * a.den) by (nonlinear_arith)
            requires
                a.num * 1 >= 1 * a.den,
                z.num * 1 < 1 * z.den,
        ;
    }
}

/// `x` first among the findings that are the same as it, scored one, with
/// nothing before it scored below one.
pub open spec fn first_ok(s: Seq<(Ratio, SimilarView)>, x: SimilarView, px: int) -> bool {
    &&& 0 <= px < s.len()
    &&& s[px] == (one(), x)
    &&& forall|k: int| 0 <= k < px ==> !same_finding((#[trigger] s[k]).1, x) && !s[k].0.lt(one())
}

pub open spec fn none_same(s: Seq<(Ratio, SimilarView)>, x: SimilarView) -> bool {
    forall|k: int| 0 <= k < s.len() ==> !same_finding((#[trigger] s[k]).1, x)
}

proof fn lemma_sorted_prefix(l: Seq<(Ratio, SimilarView)>, x: SimilarView, n1: int, a: int, m: int) -> (px: int)
    requires
        0 <= a < n1,
        a < l.len(),
        l[a] == (one(), x),
        0 <= m <= l.len(),
        forall|b: int| 0 <= b < l.len() && same_finding((#[trigger] l[b]).1, x) ==> l[b].0 == one() && (b < n1 ==> l[b].1 == x),
    ensures
        px == -1 ==> none_same(sort_desc(l.take(m)), x) && (forall|b: int| 0 <= b < m ==> !same_finding((#[trigger] l[b]).1, x)),
        px != -1 ==> first_ok(sort_desc(l.take(m)), x, px),
    decreases m,
{
    if m == 0 {
        assert(l.take(0) =~= Seq::<(Ratio, SimilarView)>::empty());
        return -1;
    }
    let prev = lemma_sorted_prefix(l, x, n1, a, m - 1);
    let s0 = sort_desc(l.take(m - 1));
    let z = l[m - 1];
    assert(l.take(m).drop_last() =~= l.take(m - 1));
    assert(l.take(m).last() == z);
    let s1 = sort_desc(l.take(m));
    assert(s1 == crate::rank::insert_desc(s0, z));
    lemma_first_lt(s0, z.0, 0);
    let p = first_lt(s0, z.0, 0);
    crate::rank::lemma_insert_desc_at(s0, z, p);
    assert(s1 == s0.take(p) + seq![z] + s0.skip(p));
    assert(s1.len() == s0.len() + 1);
    assert(forall|k: int| 0 <= k < p ==> s1[k] == s0[k]);
    assert(s1[p] == z);
    assert(forall|k: int| p < k < s1.len() ==> s1[k] == s0[k - 1]);
    let same = same_finding(z.1, x);
    if prev == -1 {
        if !same {
            assert forall|k: int| 0 <= k < s1.len() implies !same_finding((#[trigger] s1[k]).1, x) by {
                if k > p {
                    assert(s1[k] == s0[k - 1]);
                }
            }
            return -1;
        } else {
            assert(same_finding(l[a].1, x));
            if a < m - 1 {
                assert(!same_finding(l[a].1, x));
            }
            assert(z == (one(), x));
            return p;
        }
    } else {
        let px0 = prev;
        if same {
            assert(z.0 == one());
            assert(!s0[px0].0.lt(one()));
            assert(p > px0);
            return px0;
        } else if p > px0 {
            return px0;
        } else {
            if p == px0 {
                assert(s0[px0].0.lt(z.0));
                assert(!z.0.lt(one()));
            } else {
                lemma_below_one(s0[p].0, z.0);
            }
            assert(s1[px0 + 1] == s0[px0]);
            assert forall|k: int| 0 <= k < px0 + 1 implies !same_finding((#[trigger] s1[k]).1, x) && !s1[k].0.lt(one()) by {
                if k > p {
                    assert(s1[k] == s0[k - 1]);
                }
            }
            return px0 + 1;
        }
    }
}

/// After ordering by score and dropping repeats, `x` is still there when it
/// is scored one, is the first of the findings that are the same as it,
/// and those are all scored one.
proof fn lemma_ordered_keeps(l: Seq<(Ratio, SimilarView)>, x: SimilarView, n1: int, a: int)
    requires
        0 <= a < n1,
        a < l.len(),
        l[a] == (one(), x),
        forall|b: int| 0 <= b < l.len() && same_finding((#[trigger] l[b]).1, x) ==> l[b].0 == one() && (b < n1 ==> l[b].1 == x),
    ensures
        dedup_findings(sort_desc(l).map_values(|p: (Ratio, SimilarView)| p.1)).contains(x),
{
    let px = lemma_sorted_prefix(l, x, n1, a, l.len() as int);
    assert(l.take(l.len() as int) =~= l);
    assert(same_finding(l[a].1, x));
    let s = sort_desc(l);
    let t = s.map_values(|p: (Ratio, SimilarView)| p.1);
    assert(px != -1);
    assert(t[px] == x);
    assert forall|k: int| 0 <= k < px implies !same_finding(#[trigger] t[k], x) by {
        assert(t[k] == s[k].1);
    }
    lemma_dedup_keeps(t, x, px);
}

/// A symbol with the same body hash as a changed symbol, under another key,
/// is always reported as its exact duplicate, with similarity one, whatever
/// the least similarity asked for (the index built from symbols with
/// distinct keys).
pub proof fn lemma_exact_duplicates_found(all: Seq<SymbolView>, s1: SymbolView, s2: SymbolView, min: Ratio)
    requires
        forall|a: int, b: int| 0 <= a < b < all.len() ==> symbol_key(#[trigger] all[a]) != symbol_key(#[trigger] all[b]),
        all.contains(s2),
        s1.body_hash == s2.body_hash,
        symbol_key(s1) != symbol_key(s2),
    ensures
        find_similar_spec(build_spec(all), seq![s1], min).contains(duplicate_finding(s1, s2)),
{
    let ix = build_spec(all);
    let x = duplicate_finding(s1, s2);
    let j = choose|j: int| 0 <= j < all.len() && all[j] == s2;
    lemma_symbol_at_own(all, j);
    assert forall|k: Seq<char>| (#[trigger] symbol_at(ix, k)) is Some implies symbol_key(symbol_at(ix, k)->0) == k by {
        lemma_symbol_at_key(all, k);
    }
    assert(keys_honest(ix));
    let keys = keys_with_hash(ix, s1.body_hash);
    lemma_hash_lists_key(all, j);
    lemma_exact_contains(ix, s1, keys, symbol_key(s2));
    lemma_exact_same(ix, s1, keys, s2);
    let p1 = exact_matches(ix, s1, keys);
    let a = choose|a: int| 0 <= a < p1.len() && p1[a] == x;
    assert(seq![s1].drop_last() =~= Seq::<SymbolView>::empty());
    let sf = similar_for(ix, s1, min);
    assert(seq![s1].last() == s1);
    assert(similar_all(ix, Seq::<SymbolView>::empty(), min) == Seq::<SimilarView>::empty());
    assert(similar_all(ix, seq![s1], min) == Seq::<SimilarView>::empty() + sf);
    assert(Seq::<SimilarView>::empty() + sf =~= sf);
    let l = scored(sf);
    let n1 = p1.len() as int;
    let cs = shingles_spec(s1.normalized_body, 4);
    if cs.len() < 3 {
        assert(sf == p1);
    } else {
        let cmh = minhash_spec(cs);
        let cands = sort_desc(estimate_candidates(ix, symbol_key(s1), cmh, min, ix.sketches.len() as int));
        let top = if cands.len() > 100 { cands.take(100) } else { cands };
        let vc = verify_candidates(ix, s1, cs, min, top);
        let pm = pattern_matches(ix, s1, stem_pairs(ix, stems_spec(s1.name))).0;
        lemma_candidates_differ(ix, s1, cs, min, top, s2);
        lemma_patterns_one(ix, s1, stem_pairs(ix, stems_spec(s1.name)), s2);
        assert(sf == p1 + vc + pm);
        assert forall|b: int| n1 <= b < sf.len() && same_finding(#[trigger] sf[b], x) implies sf[b].similarity == one() by {
            if b < n1 + vc.len() {
                assert(sf[b] == vc[b - n1]);
            } else {
                assert(sf[b] == pm[b - n1 - vc.len()]);
            }
        }
    }
    assert forall|b: int| 0 <= b < l.len() && same_finding((#[trigger] l[b]).1, x) implies l[b].0 == one() && (b < n1 ==> l[b].1 == x) by {
        assert(l[b] == (sf[b].similarity, sf[b]));
        if b < n1 {
            assert(sf[b] == p1[b]);
        } else {
            assert(same_finding(sf[b], x));
        }
    }
    assert(sf[a] == p1[a]);
    assert(l[a] == (one(), x));
    lemma_ordered_keeps(l, x, n1, a);
}

} // verus!
