//! The call graph of a repository: who calls whom, and who is reached
//! transitively through callers.
use vstd::prelude::*;

use crate::ast::call_refs::CallReference;
use crate::ast::{calls_of_contents, contents_calls, contents_view};
use crate::text::{chars_of, find_first, first_occ, occurs_at, string_from_chars};

verus! {

/// A call edge.
#[derive(Debug)]
pub struct CallEdge {
    pub caller: String,
    pub callee: String,
    pub file_path: String,
    pub line: usize,
}

pub type EdgeView = (Seq<char>, Seq<char>, Seq<char>, usize);

impl View for CallEdge {
    type V = EdgeView;

    open spec fn view(&self) -> EdgeView {
        (self.caller@, self.callee@, self.file_path@, self.line)
    }
}

impl CallEdge {
    pub fn duplicate(&self) -> (r: CallEdge)
        ensures
            r@ == self@,
    {
        CallEdge {
            caller: self.caller.clone(),
            callee: self.callee.clone(),
            file_path: self.file_path.clone(),
            line: self.line,
        }
    }
}

pub open spec fn edges_view(v: Seq<CallEdge>) -> Seq<EdgeView> {
    v.map_values(|e: CallEdge| e@)
}

pub type EdgeTable = Seq<(Seq<char>, Seq<EdgeView>)>;

pub open spec fn table_view(v: Seq<(String, Vec<CallEdge>)>) -> EdgeTable {
    v.map_values(|e: (String, Vec<CallEdge>)| (e.0@, edges_view(e.1@)))
}

/// The call graph: for each symbol the edges of its calls, and for each
/// symbol the edges of the calls to it, keyed by name in order of first use.
/// Both tables are lists of pairs rather than hash maps, so that the
/// contracts fix the edges under each name and the order of the names.
#[derive(Debug)]
pub struct CallGraph {
    pub calls: Vec<(String, Vec<CallEdge>)>,
    pub callers: Vec<(String, Vec<CallEdge>)>,
    pub total_edges: usize,
}

pub struct GraphView {
    pub calls: EdgeTable,
    pub callers: EdgeTable,
    pub total_edges: usize,
}

impl View for CallGraph {
    type V = GraphView;

    open spec fn view(&self) -> GraphView {
        GraphView {
            calls: table_view(self.calls@),
            callers: table_view(self.callers@),
            total_edges: self.total_edges,
        }
    }
}

/// Position of `k` in the table, or its length.
pub open spec fn table_find(t: EdgeTable, k: Seq<char>, i: int) -> int
    decreases t.len() - i,
{
    if i < 0 || i >= t.len() {
        t.len() as int
    } else if t[i].0 == k {
        i
    } else {
        table_find(t, k, i + 1)
    }
}

/// Appends an edge to the list of key `k`, creating it when absent.
pub open spec fn table_append(t: EdgeTable, k: Seq<char>, e: EdgeView) -> EdgeTable {
    let i = table_find(t, k, 0);
    if i < t.len() {
        t.update(i, (k, t[i].1.push(e)))
    } else {
        t.push((k, seq![e]))
    }
}

/// The edges listed under `k`.
pub open spec fn table_get(t: EdgeTable, k: Seq<char>) -> Option<Seq<EdgeView>> {
    let i = table_find(t, k, 0);
    if i < t.len() {
        Some(t[i].1)
    } else {
        None
    }
}

pub(crate) proof fn lemma_table_find(t: EdgeTable, k: Seq<char>, i: int)
    requires
        0 <= i <= t.len(),
    ensures
        i <= table_find(t, k, i) <= t.len(),
        table_find(t, k, i) < t.len() ==> t[table_find(t, k, i)].0 == k,
    decreases t.len() - i,
{
    if i < t.len() && t[i].0 != k {
        lemma_table_find(t, k, i + 1);
    }
}

fn find_in(t: &Vec<(String, Vec<CallEdge>)>, k: &String) -> (r: usize)
    ensures
        r as int == table_find(table_view(t@), k@, 0),
        r <= t@.len(),
{
    let ghost v = table_view(t@);
    proof {
        lemma_table_find(v, k@, 0);
    }
    let mut i: usize = 0;
    while i < t.len()
        invariant
            i <= t@.len(),
            v == table_view(t@),
            table_find(v, k@, 0) == table_find(v, k@, i as int),
        decreases t.len() - i,
    {
        if t[i].0 == *k {
            return i;
        }
        i = i + 1;
    }
    i
}

fn append_to(t: &mut Vec<(String, Vec<CallEdge>)>, k: &String, e: CallEdge)
    ensures
        table_view(final(t)@) == table_append(table_view(old(t)@), k@, e@),
{
    let ghost v = table_view(t@);
    let ghost ev = e@;
    let i = find_in(t, k);
    proof {
        lemma_table_find(v, k@, 0);
    }
    if i < t.len() {
        t[i].1.push(e);
        proof {
            assert(edges_view(t@[i as int].1@) =~= v[i as int].1.push(ev));
            assert(table_view(t@) =~= v.update(i as int, (k@, v[i as int].1.push(ev))));
        }
    } else {
        let mut l: Vec<CallEdge> = Vec::new();
        l.push(e);
        t.push((k.clone(), l));
        proof {
            assert(edges_view(l@) =~= seq![ev]);
            assert(table_view(t@) =~= v.push((k@, seq![ev])));
        }
    }
}

/// The edge a call reference stands for.
pub open spec fn ref_edge(r: CallReference) -> EdgeView {
    (r.caller_name@, r.callee_name@, r.file_path@, r.line)
}

/// The graph after adding the edge of one reference.
pub open spec fn graph_add(g: GraphView, r: CallReference) -> GraphView {
    GraphView {
        calls: table_append(g.calls, r.caller_name@, ref_edge(r)),
        callers: table_append(g.callers, r.callee_name@, ref_edge(r)),
        total_edges: (g.total_edges + 1) as usize,
    }
}

impl CallGraph {
    /// The empty graph.
    pub fn new() -> (r: CallGraph)
        ensures
            r@.calls.len() == 0,
            r@.callers.len() == 0,
            r@.total_edges == 0,
    {
        CallGraph { calls: Vec::new(), callers: Vec::new(), total_edges: 0 }
    }

    /// The call graph of files given with their bytes: the calls of each
    /// file that can be parsed, file after file.
    pub fn build(files: &[(String, Vec<u8>)]) -> (r: CallGraph)
        ensures
            r@ == crate::repo::graph_from(contents_calls(contents_view(files@))),
    {
        let refs = calls_of_contents(files);
        crate::repo::build_graph(refs.as_slice())
    }

    /// Adds the edge of a call reference.
    pub fn add_ref(&mut self, r: &CallReference)
        requires
            old(self)@.total_edges < usize::MAX,
        ensures
            final(self)@ == graph_add(old(self)@, *r),
    {
        self.add_edge(r);
    }

    fn add_edge(&mut self, r: &CallReference)
        requires
            old(self)@.total_edges < usize::MAX,
        ensures
            final(self)@ == graph_add(old(self)@, *r),
    {
        let e1 = CallEdge {
            caller: r.caller_name.clone(),
            callee: r.callee_name.clone(),
            file_path: r.file_path.clone(),
            line: r.line,
        };
        let e2 = e1.duplicate();
        append_to(&mut self.calls, &r.caller_name, e1);
        append_to(&mut self.callers, &r.callee_name, e2);
        self.total_edges = self.total_edges + 1;
    }
}

/// The last position at or before `k` where `needle` occurs.
pub open spec fn last_occ(hay: Seq<char>, needle: Seq<char>, k: int) -> Option<int>
    decreases k + 1,
{
    if k < 0 {
        None
    } else if occurs_at(hay, needle, k) {
        Some(k)
    } else {
        last_occ(hay, needle, k - 1)
    }
}

/// The part of a name after its last `::` (the whole name without one).
pub open spec fn short_name(name: Seq<char>) -> Seq<char> {
    match last_occ(name, "::"@, name.len() as int) {
        Some(i) => name.skip(i + 2),
        None => name,
    }
}

proof fn lemma_last_occ_sep(p: Seq<char>, b: Seq<char>, k: int)
    requires
        forall|x: int| 0 <= x < b.len() ==> b[x] != ':',
        p.len() <= k <= p.len() + 2 + b.len(),
        "::"@.len() == 2,
        "::"@[0] == ':',
        "::"@[1] == ':',
    ensures
        last_occ(p + "::"@ + b, "::"@, k) == Some(p.len() as int),
    decreases k,
{
    let name = p + "::"@ + b;
    if k == p.len() {
        assert(name.subrange(k, k + 2) =~= "::"@);
    } else {
        assert(name[k] != ':' || k + 1 >= name.len() || name[k + 1] != ':') by {
            if k >= name.len() {
            } else if k >= p.len() + 2 {
                assert(name[k] == b[k - p.len() - 2]);
            } else if k == p.len() + 1 {
                if k + 1 < name.len() {
                    assert(name[k + 1] == b[0]);
                }
            }
        }
        if occurs_at(name, "::"@, k) {
            assert(name.subrange(k, k + 2)[0] == name[k]);
            assert(name.subrange(k, k + 2)[1] == name[k + 1]);
        }
        lemma_last_occ_sep(p, b, k - 1);
    }
}

/// The short name of a qualified name is its last segment: for `p::b`
/// where `b` has no `:`, it is `b`; a name without `::` is its own short
/// name.
pub proof fn lemma_short_name(p: Seq<char>, b: Seq<char>, plain: Seq<char>)
    requires
        forall|x: int| 0 <= x < b.len() ==> b[x] != ':',
        forall|x: int| 0 <= x < plain.len() ==> plain[x] != ':',
    ensures
        short_name(p + "::"@ + b) == b,
        short_name(plain) == plain,
{
    reveal_strlit("::");
    let name = p + "::"@ + b;
    lemma_last_occ_sep(p, b, name.len() as int);
    assert(name.skip(p.len() + 2int) =~= b);
    lemma_last_occ_none(plain, plain.len() as int);
}

proof fn lemma_last_occ_none(plain: Seq<char>, k: int)
    requires
        forall|x: int| 0 <= x < plain.len() ==> plain[x] != ':',
        "::"@.len() == 2,
        "::"@[0] == ':',
    ensures
        last_occ(plain, "::"@, k) is None,
    decreases k + 1,
{
    if k >= 0 {
        if occurs_at(plain, "::"@, k) {
            assert(plain.subrange(k, k + 2)[0] == plain[k]);
        }
        lemma_last_occ_none(plain, k - 1);
    }
}

fn short_name_of(name: &String) -> (r: String)
    ensures
        r@ == short_name(name@),
{
    let c = chars_of(name.as_str());
    let sep = chars_of("::");
    proof {
        reveal_strlit("::");
        assert(sep@.len() == 2);
    }
    let mut k: usize = c.len();
    loop
        invariant
            k <= c@.len(),
            c@ == name@,
            sep@ == "::"@,
            sep@.len() == 2,
            last_occ(c@, sep@, c@.len() as int) == last_occ(c@, sep@, k as int),
        decreases k,
    {
        if crate::text::matches_at(c.as_slice(), sep.as_slice(), k) {
            assert(occurs_at(c@, sep@, k as int));
            let n = c.len();
            assert(k + 2 <= n);
            let start: usize = k + 2;
            let r = string_from_chars(&c.as_slice()[start..n]);
            proof {
                assert(c@.subrange(start as int, n as int) =~= c@.skip(k as int + 2));
            }
            return r;
        }
        if k == 0 {
            proof {
                assert(last_occ(c@, sep@, -1) is None);
            }
            return name.clone();
        }
        k = k - 1;
    }
}

/// Direct callers of a symbol: the edges under its name, else under its
/// short name (when that differs), else none.
pub open spec fn callers_of_spec(g: GraphView, name: Seq<char>) -> Seq<EdgeView> {
    match table_get(g.callers, name) {
        Some(es) => es,
        None => if short_name(name) != name {
            match table_get(g.callers, short_name(name)) {
                Some(es) => es,
                None => Seq::empty(),
            }
        } else {
            Seq::empty()
        },
    }
}

impl CallGraph {
    fn lookup(&self, name: &String) -> (r: Option<Vec<CallEdge>>)
        ensures
            match r {
                Some(es) => table_get(self@.callers, name@) == Some(edges_view(es@)),
                None => table_get(self@.callers, name@) is None,
            },
    {
        let i = find_in(&self.callers, name);
        if i < self.callers.len() {
            let list = &self.callers[i].1;
            let mut out: Vec<CallEdge> = Vec::new();
            let mut k: usize = 0;
            while k < list.len()
                invariant
                    k <= list@.len(),
                    edges_view(out@) == edges_view(list@).take(k as int),
                decreases list.len() - k,
            {
                let ghost before = edges_view(out@);
                out.push(list[k].duplicate());
                proof {
                    assert(edges_view(out@) =~= before.push(list@[k as int]@));
                    assert(edges_view(list@).take(k + 1) =~= edges_view(list@).take(k as int).push(list@[k as int]@));
                }
                k = k + 1;
            }
            proof {
                assert(edges_view(list@).take(list@.len() as int) =~= edges_view(list@));
            }
            Some(out)
        } else {
            None
        }
    }

    /// Direct callers of a symbol: those of its full name, else those of its
    /// short name (after the last `::`).
    pub fn callers_of(&self, symbol_name: &String) -> (r: Vec<CallEdge>)
        ensures
            edges_view(r@) == callers_of_spec(self@, symbol_name@),
    {
        match self.lookup(symbol_name) {
            Some(es) => es,
            None => {
                let short = short_name_of(symbol_name);
                if !(short == *symbol_name) {
                    match self.lookup(&short) {
                        Some(es) => es,
                        None => Vec::new(),
                    }
                } else {
                    Vec::new()
                }
            },
        }
    }
}

// ------------------------------------------------------ transitive callers

/// The search for transitive callers so far: names still to visit (with
/// their depth; the first is next), names visited, edges found.
pub struct SearchState {
    pub queue: Seq<(Seq<char>, usize)>,
    pub visited: Seq<Seq<char>>,
    pub found: Seq<(EdgeView, usize)>,
}

pub open spec fn search_start(start: Seq<char>) -> SearchState {
    SearchState { queue: seq![(start, 0usize)], visited: Seq::empty(), found: Seq::empty() }
}

/// Records the edges of one visited name at `depth`: each is found unless it
/// is a self-call of the start at depth zero, and its caller is queued one
/// level deeper while that stays within `max_depth`.
pub open spec fn expand(
    st: SearchState,
    edges: Seq<EdgeView>,
    depth: usize,
    start: Seq<char>,
    max_depth: usize,
) -> SearchState
    decreases edges.len(),
{
    if edges.len() == 0 {
        st
    } else {
        let s = expand(st, edges.drop_last(), depth, start, max_depth);
        let e = edges.last();
        let found = if depth > 0 || e.0 != start {
            s.found.push((e, depth))
        } else {
            s.found
        };
        let queue = if depth + 1 <= max_depth {
            s.queue.push((e.0, (depth + 1) as usize))
        } else {
            s.queue
        };
        SearchState { queue, visited: s.visited, found }
    }
}

/// One step: take the first queued name; skip it if too deep or already
/// visited, else visit it.
pub open spec fn search_step(g: GraphView, start: Seq<char>, max_depth: usize, st: SearchState) -> SearchState {
    if st.queue.len() == 0 {
        st
    } else {
        let (name, depth) = st.queue.first();
        let rest = SearchState { queue: st.queue.drop_first(), visited: st.visited, found: st.found };
        if depth > max_depth || st.visited.contains(name) {
            rest
        } else {
            expand(
                SearchState { queue: rest.queue, visited: rest.visited.push(name), found: rest.found },
                callers_of_spec(g, name),
                depth,
                start,
                max_depth,
            )
        }
    }
}

pub open spec fn search_run(g: GraphView, start: Seq<char>, max_depth: usize, n: nat) -> SearchState
    decreases n,
{
    if n == 0 {
        search_start(start)
    } else {
        search_step(g, start, max_depth, search_run(g, start, max_depth, (n - 1) as nat))
    }
}

/// The edges of all callers within `max_depth` levels, each with its depth,
/// in the order of a breadth-first search (the first queued name first):
/// names are queued in order of depth, so each name is visited at the
/// fewest calls it lies from the symbol, and every calling edge within
/// the depth is found once, at that depth.
pub open spec fn transitive_spec(g: GraphView, start: Seq<char>, max_depth: usize) -> Seq<(EdgeView, usize)> {
    search_run(
        g,
        start,
        max_depth,
        choose|n: nat| search_run(g, start, max_depth, n).queue.len() == 0,
    ).found
}

proof fn lemma_run_settles(g: GraphView, start: Seq<char>, max_depth: usize, a: nat, b: nat)
    requires
        a <= b,
        search_run(g, start, max_depth, a).queue.len() == 0,
    ensures
        search_run(g, start, max_depth, b) == search_run(g, start, max_depth, a),
    decreases b - a,
{
    if b > a {
        lemma_run_settles(g, start, max_depth, a, (b - 1) as nat);
    }
}

/// Every caller named in the table.
pub open spec fn all_callers(t: EdgeTable) -> Seq<Seq<char>>
    decreases t.len(),
{
    if t.len() == 0 {
        Seq::empty()
    } else {
        all_callers(t.drop_last()) + t.last().1.map_values(|e: EdgeView| e.0)
    }
}

pub open spec fn universe(g: GraphView, start: Seq<char>) -> Set<Seq<char>> {
    all_callers(g.callers).to_set().insert(start)
}

proof fn lemma_all_callers(t: EdgeTable, i: int, j: int)
    requires
        0 <= i < t.len(),
        0 <= j < t[i].1.len(),
    ensures
        all_callers(t).contains(t[i].1[j].0),
    decreases t.len(),
{
    let last = t.last().1.map_values(|e: EdgeView| e.0);
    if i == t.len() - 1 {
        assert((all_callers(t.drop_last()) + last)[all_callers(t.drop_last()).len() + j] == t[i].1[j].0);
    } else {
        lemma_all_callers(t.drop_last(), i, j);
        let k = choose|k: int| 0 <= k < all_callers(t.drop_last()).len() && all_callers(t.drop_last())[k] == t[i].1[j].0;
        assert((all_callers(t.drop_last()) + last)[k] == t[i].1[j].0);
    }
}

proof fn lemma_callers_in_universe(g: GraphView, start: Seq<char>, name: Seq<char>)
    ensures
        forall|j: int|
            0 <= j < callers_of_spec(g, name).len() ==> universe(g, start).contains(
                (#[trigger] callers_of_spec(g, name)[j]).0,
            ),
{
    assert forall|j: int| 0 <= j < callers_of_spec(g, name).len() implies universe(g, start).contains(
        (#[trigger] callers_of_spec(g, name)[j]).0,
    ) by {
        let i1 = table_find(g.callers, name, 0);
        lemma_table_find(g.callers, name, 0);
        lemma_table_find(g.callers, short_name(name), 0);
        let i2 = table_find(g.callers, short_name(name), 0);
        if i1 < g.callers.len() {
            lemma_all_callers(g.callers, i1, j);
        } else {
            lemma_all_callers(g.callers, i2, j);
        }
    }
}

proof fn lemma_visited_bound(v: Seq<Seq<char>>, u: Set<Seq<char>>)
    requires
        v.no_duplicates(),
        u.finite(),
        forall|i: int| 0 <= i < v.len() ==> u.contains(#[trigger] v[i]),
    ensures
        v.len() <= u.len(),
{
    v.unique_seq_to_set();
    assert(v.to_set().subset_of(u));
    vstd::set_lib::lemma_len_subset(v.to_set(), u);
}

pub open spec fn queue_view(q: Seq<(String, usize)>) -> Seq<(Seq<char>, usize)> {
    q.map_values(|e: (String, usize)| (e.0@, e.1))
}

pub open spec fn names_view(v: Seq<String>) -> Seq<Seq<char>> {
    v.map_values(|s: String| s@)
}

pub open spec fn found_view(v: Seq<(CallEdge, usize)>) -> Seq<(EdgeView, usize)> {
    v.map_values(|e: (CallEdge, usize)| (e.0@, e.1))
}

impl CallGraph {
    /// Callers up to `max_depth` levels away, each edge with its depth, found
    /// by a breadth-first search that visits each name once, nearest first;
    /// a self-call of the symbol itself at depth zero is left out.
    pub fn transitive_callers(&self, symbol_name: &String, max_depth: usize) -> (r: Vec<(CallEdge, usize)>)
        ensures
            found_view(r@) == transitive_spec(self@, symbol_name@, max_depth),
    {
        let ghost g = self@;
        let ghost start = symbol_name@;
        let ghost u = universe(g, start);
        let mut result: Vec<(CallEdge, usize)> = Vec::new();
        let mut visited: Vec<String> = Vec::new();
        let mut queue: Vec<(String, usize)> = Vec::new();
        queue.push((symbol_name.clone(), 0));
        let mut head: usize = 0;
        let ghost mut n: nat = 0;
        proof {
            assert(queue_view(queue@).skip(0) =~= seq![(start, 0usize)]);
            assert(names_view(visited@) =~= Seq::<Seq<char>>::empty());
            assert(found_view(result@) =~= Seq::<(EdgeView, usize)>::empty());
            assert(u.finite());
        }
        while head < queue.len()
            invariant
                g == self@,
                start == symbol_name@,
                u == universe(g, start),
                u.finite(),
                head <= queue@.len(),
                search_run(g, start, max_depth, n) == (SearchState {
                    queue: queue_view(queue@).skip(head as int),
                    visited: names_view(visited@),
                    found: found_view(result@),
                }),
                names_view(visited@).no_duplicates(),
                forall|i: int| 0 <= i < visited@.len() ==> u.contains(#[trigger] names_view(visited@)[i]),
                forall|i: int| 0 <= i < queue@.len() ==> u.contains(#[trigger] queue_view(queue@)[i].0),
                visited@.len() <= u.len(),
            decreases u.len() - visited@.len(), queue@.len() - head,
        {
            let ghost st = search_run(g, start, max_depth, n);
            let ghost qv = queue_view(queue@);
            let name = queue[head].0.clone();
            let depth = queue[head].1;
            head = head + 1;
            proof {
                assert(queue_view(queue@).skip(head as int) =~= st.queue.drop_first());
                assert(st.queue.first() == qv[head - 1]);
                assert(qv[head - 1] == (name@, depth));
                assert(u.contains(qv[head - 1].0));
            }
            let seen = contains_name(&visited, &name);
            if depth > max_depth || seen {
                proof {
                    n = n + 1;
                }
                continue;
            }
            let ghost vbefore = names_view(visited@);
            visited.push(name.clone());
            proof {
                assert(names_view(visited@) =~= vbefore.push(name@));
                assert(u.contains(name@));
                assert forall|a: int, b: int| 0 <= a < b < names_view(visited@).len() implies names_view(visited@)[a] != names_view(visited@)[b] by {
                    if b == vbefore.len() {
                        assert(vbefore[a] != name@);
                    } else {
                        assert(vbefore[a] != vbefore[b]);
                    }
                }
                lemma_visited_bound(names_view(visited@), u);
            }
            let edges = self.callers_of(&name);
            let ghost ev = edges_view(edges@);
            proof {
                lemma_callers_in_universe(g, start, name@);
            }
            let ghost base = SearchState {
                queue: queue_view(queue@).skip(head as int),
                visited: names_view(visited@),
                found: found_view(result@),
            };
            proof {
                assert(ev.take(0) =~= Seq::<EdgeView>::empty());
            }
            let mut k: usize = 0;
            while k < edges.len()
                invariant
                    k <= edges@.len(),
                    ev == edges_view(edges@),
                    ev == callers_of_spec(g, name@),
                    u == universe(g, start),
                    depth <= max_depth,
                    start == symbol_name@,
                    head <= queue@.len(),
                    expand(base, ev.take(k as int), depth, start, max_depth) == (SearchState {
                        queue: queue_view(queue@).skip(head as int),
                        visited: names_view(visited@),
                        found: found_view(result@),
                    }),
                    forall|i: int| 0 <= i < queue@.len() ==> u.contains(#[trigger] queue_view(queue@)[i].0),
                    forall|j: int| 0 <= j < ev.len() ==> u.contains((#[trigger] ev[j]).0),
                decreases edges.len() - k,
            {
                let e = &edges[k];
                proof {
                    assert(ev.take(k + 1).drop_last() =~= ev.take(k as int));
                    assert(ev.take(k + 1).last() == e@);
                }
                let ghost fb = found_view(result@);
                let ghost qb = queue_view(queue@).skip(head as int);
                let ghost qall = queue_view(queue@);
                if depth > 0 || !(e.caller == *symbol_name) {
                    result.push((e.duplicate(), depth));
                    proof {
                        assert(found_view(result@) =~= fb.push((e@, depth)));
                    }
                }
                if depth < max_depth {
                    queue.push((e.caller.clone(), depth + 1));
                    proof {
                        assert(queue_view(queue@) =~= qall.push((e@.0, (depth + 1) as usize)));
                        assert(queue_view(queue@).skip(head as int) =~= qb.push((e@.0, (depth + 1) as usize)));
                        assert(u.contains(ev[k as int].0));
                    }
                }
                k = k + 1;
            }
            proof {
                assert(ev.take(edges@.len() as int) =~= ev);
                n = n + 1;
            }
        }
        proof {
            let m = choose|m: nat| search_run(g, start, max_depth, m).queue.len() == 0;
            assert(queue_view(queue@).skip(head as int).len() == 0);
            assert(search_run(g, start, max_depth, n).queue.len() == 0);
            if m <= n {
                lemma_run_settles(g, start, max_depth, m, n);
            } else {
                lemma_run_settles(g, start, max_depth, n, m);
            }
        }
        result
    }
}

fn contains_name(v: &Vec<String>, x: &String) -> (r: bool)
    ensures
        r == names_view(v@).contains(x@),
{
    let mut i: usize = 0;
    while i < v.len()
        invariant
            i <= v@.len(),
            forall|k: int| 0 <= k < i ==> v@[k]@ != x@,
        decreases v.len() - i,
    {
        if v[i] == *x {
            assert(names_view(v@)[i as int] == x@);
            return true;
        }
        i = i + 1;
    }
    proof {
        if names_view(v@).contains(x@) {
            let k = choose|k: int| 0 <= k < names_view(v@).len() && names_view(v@)[k] == x@;
            assert(v@[k]@ == x@);
        }
    }
    false
}

} // verus!
