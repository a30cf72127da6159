//! A parsed syntax tree as plain data: each node's kind, the field it hangs
//! under in its parent, its byte and row span, its parent, previous sibling
//! and children. Nodes are numbered in document order from the root, so a
//! node's children come after it.
use vstd::prelude::*;

use crate::ast::normalize::{normalize_body, normalized};
use crate::ast::symbol::{opt_view, params_view, Parameter, ParameterView, Symbol, SymbolKind, SymbolView, Visibility};
use crate::text::str_eq;

verus! {

/// A node of a syntax tree.
#[derive(Debug)]
pub struct SyntaxNode {
    pub kind: String,
    /// The field name under which the node hangs in its parent.
    pub field: Option<String>,
    pub start_byte: usize,
    pub end_byte: usize,
    /// 0-based row of the first character.
    pub start_row: usize,
    /// 0-based row of the last character.
    pub end_row: usize,
    pub parent: Option<usize>,
    pub prev_sibling: Option<usize>,
    pub children: Vec<usize>,
}

pub struct NodeView {
    pub kind: Seq<char>,
    pub field: Option<Seq<char>>,
    pub start_byte: usize,
    pub end_byte: usize,
    pub start_row: usize,
    pub end_row: usize,
    pub parent: Option<usize>,
    pub prev_sibling: Option<usize>,
    pub children: Seq<usize>,
}

impl View for SyntaxNode {
    type V = NodeView;

    open spec fn view(&self) -> NodeView {
        NodeView {
            kind: self.kind@,
            field: opt_view(self.field),
            start_byte: self.start_byte,
            end_byte: self.end_byte,
            start_row: self.start_row,
            end_row: self.end_row,
            parent: self.parent,
            prev_sibling: self.prev_sibling,
            children: self.children@,
        }
    }
}

/// A syntax tree, its root first.
#[derive(Debug)]
pub struct SyntaxTree {
    pub nodes: Vec<SyntaxNode>,
}

pub type TreeView = Seq<NodeView>;

impl View for SyntaxTree {
    type V = TreeView;

    open spec fn view(&self) -> TreeView {
        self.nodes@.map_values(|n: SyntaxNode| n@)
    }
}

/// A tree of a source of `n` bytes: spans inside the source, rows below
/// the largest number, links inside the tree, children after their parent.
pub open spec fn tree_fits(t: TreeView, n: nat) -> bool {
    forall|i: int|
        0 <= i < t.len() ==> {
            &&& (#[trigger] t[i]).start_byte <= t[i].end_byte <= n
            &&& t[i].start_row < usize::MAX
            &&& t[i].end_row < usize::MAX
            &&& (forall|k: int| 0 <= k < t[i].children.len() ==> i < #[trigger] t[i].children[k] < t.len())
            &&& (t[i].parent matches Some(p) ==> p < t.len())
            &&& (t[i].prev_sibling matches Some(q) ==> q < t.len())
        }
}

/// The text of a byte range as `String::from_utf8_lossy` reads it.
pub uninterp spec fn utf8_lossy(b: Seq<u8>) -> Seq<char>;

/// The BLAKE3 digest of some bytes.
pub uninterp spec fn blake3_digest(b: Seq<u8>) -> Seq<u8>;

/// The text of bytes as `String::from_utf8_lossy` gives it: the bytes
/// themselves when they are UTF-8; otherwise each invalid sequence is
/// replaced by U+FFFD, which is named `utf8_lossy` and not stated.
#[verifier::external_body]
pub(crate) fn lossy_text(b: &[u8]) -> (r: String)
    ensures
        r@ == utf8_lossy(b@),
        vstd::utf8::valid_utf8(b@) ==> r@ == vstd::utf8::decode_utf8(b@),
{
    String::from_utf8_lossy(b).to_string()
}

/// `blake3::hash` of the UTF-8 bytes of a text, as its 32 bytes. The
/// digest is named `blake3_digest`; nothing else is claimed of it.
#[verifier::external_body]
pub(crate) fn blake3_of(text: &str) -> (r: [u8; 32])
    ensures
        r@ == blake3_digest(vstd::utf8::encode_utf8(text@)),
{
    blake3::hash(text.as_bytes()).into()
}

/// The text of node `i`.
pub open spec fn text_of(t: TreeView, src: Seq<u8>, i: int) -> Seq<char> {
    utf8_lossy(src.subrange(t[i].start_byte as int, t[i].end_byte as int))
}

pub fn node_text(t: &SyntaxTree, src: &[u8], i: usize) -> (r: String)
    requires
        tree_fits(t@, src@.len()),
        i < t@.len(),
    ensures
        r@ == text_of(t@, src@, i as int),
{
    let n = &t.nodes[i];
    assert(t@[i as int] == n@);
    let mut bytes: Vec<u8> = Vec::new();
    let mut k = n.start_byte;
    while k < n.end_byte
        invariant
            n.start_byte <= k <= n.end_byte,
            n.end_byte <= src@.len(),
            bytes@ == src@.subrange(n.start_byte as int, k as int),
        decreases n.end_byte - k,
    {
        bytes.push(src[k]);
        k = k + 1;
        assert(bytes@ =~= src@.subrange(n.start_byte as int, k as int));
    }
    lossy_text(bytes.as_slice())
}

/// The first child of `i` from position `k` on that hangs under field `f`.
pub open spec fn field_child_from(t: TreeView, i: int, f: Seq<char>, k: int) -> Option<int>
    decreases t[i].children.len() - k,
{
    if k < 0 || k >= t[i].children.len() {
        None
    } else if t[t[i].children[k] as int].field == Some(f) {
        Some(t[i].children[k] as int)
    } else {
        field_child_from(t, i, f, k + 1)
    }
}

/// The child of `i` under field `f` (`Node::child_by_field_name`).
pub open spec fn field_child(t: TreeView, i: int, f: Seq<char>) -> Option<int> {
    field_child_from(t, i, f, 0)
}

pub proof fn lemma_field_child_range(t: TreeView, i: int, f: Seq<char>, k: int, n: nat)
    requires
        tree_fits(t, n),
        0 <= i < t.len(),
        0 <= k,
    ensures
        field_child_from(t, i, f, k) matches Some(c) ==> i < c < t.len(),
    decreases t[i].children.len() - k,
{
    if k < t[i].children.len() {
        assert(i < t[i].children[k] < t.len());
        lemma_field_child_range(t, i, f, k + 1, n);
    }
}

fn opt_str_is(o: &Option<String>, s: &str) -> (r: bool)
    ensures
        r == (opt_view(*o) == Some(s@)),
{
    match o {
        Some(x) => str_eq(x.as_str(), s),
        None => false,
    }
}

/// The child of node `i` under field `f`, if any.
pub fn child_by_field(t: &SyntaxTree, i: usize, f: &str) -> (r: Option<usize>)
    requires
        i < t@.len(),
        exists|n: nat| tree_fits(t@, n),
    ensures
        match r {
            Some(c) => field_child(t@, i as int, f@) == Some(c as int) && i < c < t@.len(),
            None => field_child(t@, i as int, f@) is None,
        },
{
    let ghost tv = t@;
    let n = &t.nodes[i];
    assert(tv[i as int] == n@);
    let ghost nn = choose|n: nat| tree_fits(tv, n);
    let mut k: usize = 0;
    while k < n.children.len()
        invariant
            k <= n.children@.len(),
            tv == t@,
            tree_fits(tv, nn),
            i < tv.len(),
            tv[i as int] == n@,
            field_child_from(tv, i as int, f@, k as int) == field_child(tv, i as int, f@),
        decreases n.children.len() - k,
    {
        let c = n.children[k];
        assert(i < tv[i as int].children[k as int] < tv.len());
        assert(tv[c as int] == t.nodes@[c as int]@);
        if opt_str_is(&t.nodes[c].field, f) {
            return Some(c);
        }
        k = k + 1;
    }
    None
}

/// Whether node `i` has kind `k`.
pub fn kind_is(t: &SyntaxTree, i: usize, k: &str) -> (r: bool)
    requires
        i < t@.len(),
    ensures
        r == (t@[i as int].kind == k@),
{
    assert(t@[i as int] == t.nodes@[i as int]@);
    str_eq(t.nodes[i].kind.as_str(), k)
}

/// A symbol found in a file: its normalized body and that body's digest
/// are computed from its text.
pub open spec fn symbol_spec(
    kind: SymbolKind,
    name: Seq<char>,
    qualified_name: Seq<char>,
    path: Seq<char>,
    line_range: (usize, usize),
    signature: Seq<char>,
    body_text: Seq<char>,
    parent: Option<Seq<char>>,
    visibility: Visibility,
    parameters: Seq<ParameterView>,
    return_type: Option<Seq<char>>,
) -> SymbolView {
    SymbolView {
        kind,
        name,
        qualified_name,
        file_path: path,
        line_range,
        signature,
        body_hash: blake3_digest(vstd::utf8::encode_utf8(normalized(body_text))),
        body_text,
        normalized_body: normalized(body_text),
        parent,
        visibility,
        parameters,
        return_type,
    }
}

/// Builds a symbol from its parts.
pub fn make_symbol(
    kind: SymbolKind,
    name: String,
    qualified_name: String,
    path: &str,
    line_range: (usize, usize),
    signature: String,
    body_text: String,
    parent: Option<String>,
    visibility: Visibility,
    parameters: Vec<Parameter>,
    return_type: Option<String>,
) -> (r: Symbol)
    ensures
        r@ == symbol_spec(
            kind,
            name@,
            qualified_name@,
            path@,
            line_range,
            signature@,
            body_text@,
            opt_view(parent),
            visibility,
            params_view(parameters@),
            opt_view(return_type),
        ),
{
    let normalized_body = normalize_body(body_text.as_str());
    let body_hash = blake3_of(normalized_body.as_str());
    Symbol {
        kind,
        name,
        qualified_name,
        file_path: String::from_str(path),
        line_range,
        signature,
        body_hash,
        body_text,
        normalized_body,
        parent,
        visibility,
        parameters,
        return_type,
    }
}

/// The 1-based lines a node spans.
pub open spec fn lines_of(t: TreeView, i: int) -> (usize, usize) {
    ((t[i].start_row + 1) as usize, (t[i].end_row + 1) as usize)
}

pub fn node_lines(t: &SyntaxTree, i: usize) -> (r: (usize, usize))
    requires
        i < t@.len(),
        exists|n: nat| tree_fits(t@, n),
    ensures
        r == lines_of(t@, i as int),
{
    let ghost nn = choose|n: nat| tree_fits(t@, n);
    assert(t@[i as int] == t.nodes@[i as int]@);
    assert(t@[i as int].start_row < usize::MAX);
    (t.nodes[i].start_row + 1, t.nodes[i].end_row + 1)
}


/// A node of a parsed file as the parser lists them, in document order:
/// its kind, its field in its parent, its spans and its depth below the root.
#[derive(Debug)]
pub struct FlatNode {
    pub kind: String,
    pub field: Option<String>,
    pub start_byte: usize,
    pub end_byte: usize,
    pub start_row: usize,
    pub end_row: usize,
    pub depth: usize,
}

pub struct FlatView {
    pub kind: Seq<char>,
    pub field: Option<Seq<char>>,
    pub start_byte: usize,
    pub end_byte: usize,
    pub start_row: usize,
    pub end_row: usize,
    pub depth: usize,
}

impl View for FlatNode {
    type V = FlatView;

    open spec fn view(&self) -> FlatView {
        FlatView {
            kind: self.kind@,
            field: opt_view(self.field),
            start_byte: self.start_byte,
            end_byte: self.end_byte,
            start_row: self.start_row,
            end_row: self.end_row,
            depth: self.depth,
        }
    }
}

pub open spec fn flat_view(v: Seq<FlatNode>) -> Seq<FlatView> {
    v.map_values(|n: FlatNode| n@)
}

/// The parent of node `i`: the last node before it that lies less deep,
/// searched from `j` down.
pub open spec fn flat_parent_from(f: Seq<FlatView>, i: int, j: int) -> Option<usize>
    decreases j + 1,
{
    if j < 0 {
        None
    } else if f[j].depth < f[i].depth {
        Some(j as usize)
    } else {
        flat_parent_from(f, i, j - 1)
    }
}

pub open spec fn flat_parent(f: Seq<FlatView>, i: int) -> Option<usize> {
    flat_parent_from(f, i, i - 1)
}

/// The previous sibling of node `i`: the last node before it at its depth,
/// unless a less deep node comes between; searched from `j` down.
pub open spec fn flat_prev_from(f: Seq<FlatView>, i: int, j: int) -> Option<usize>
    decreases j + 1,
{
    if j < 0 || f[j].depth < f[i].depth {
        None
    } else if f[j].depth == f[i].depth {
        Some(j as usize)
    } else {
        flat_prev_from(f, i, j - 1)
    }
}

pub open spec fn flat_prev(f: Seq<FlatView>, i: int) -> Option<usize> {
    flat_prev_from(f, i, i - 1)
}

/// The children of node `i` among the nodes of its subtree from `k` on:
/// those whose parent it is.
pub open spec fn flat_children_from(f: Seq<FlatView>, i: int, k: int) -> Seq<usize>
    decreases f.len() - k,
{
    if k <= i || k >= f.len() || f[k].depth <= f[i].depth {
        Seq::empty()
    } else {
        (if flat_parent(f, k) == Some(i as usize) { seq![k as usize] } else { Seq::empty() }) + flat_children_from(f, i, k + 1)
    }
}

/// The tree that a document-order node list with depths describes.
pub open spec fn tree_from_flat(f: Seq<FlatView>) -> TreeView {
    Seq::new(f.len(), |i: int| NodeView {
        kind: f[i].kind,
        field: f[i].field,
        start_byte: f[i].start_byte,
        end_byte: f[i].end_byte,
        start_row: f[i].start_row,
        end_row: f[i].end_row,
        parent: flat_parent(f, i),
        prev_sibling: flat_prev(f, i),
        children: flat_children_from(f, i, i + 1),
    })
}

/// Every node's span lies in a source of `n` bytes, and its rows are below
/// the largest number.
pub open spec fn flat_fits(f: Seq<FlatView>, n: nat) -> bool {
    forall|i: int|
        0 <= i < f.len() ==> {
            &&& (#[trigger] f[i]).start_byte <= f[i].end_byte <= n
            &&& f[i].start_row < usize::MAX
            &&& f[i].end_row < usize::MAX
        }
}

proof fn lemma_flat_parent_before(f: Seq<FlatView>, i: int, j: int)
    requires
        j < i,
    ensures
        flat_parent_from(f, i, j) matches Some(p) ==> 0 <= p <= j,
    decreases j + 1,
{
    if j >= 0 && !(f[j].depth < f[i].depth) {
        lemma_flat_parent_before(f, i, j - 1);
    }
}

proof fn lemma_flat_prev_before(f: Seq<FlatView>, i: int, j: int)
    requires
        j < i,
    ensures
        flat_prev_from(f, i, j) matches Some(p) ==> 0 <= p <= j,
    decreases j + 1,
{
    if j >= 0 && !(f[j].depth < f[i].depth) && f[j].depth != f[i].depth {
        lemma_flat_prev_before(f, i, j - 1);
    }
}

proof fn lemma_flat_children_range(f: Seq<FlatView>, i: int, k: int)
    requires
        0 <= i < k,
        f.len() <= usize::MAX,
    ensures
        forall|m: int| 0 <= m < flat_children_from(f, i, k).len() ==> k <= #[trigger] flat_children_from(f, i, k)[m] < f.len(),
    decreases f.len() - k,
{
    if !(k <= i || k >= f.len() || f[k].depth <= f[i].depth) {
        lemma_flat_children_range(f, i, k + 1);
        let head: Seq<usize> = if flat_parent(f, k) == Some(i as usize) { seq![k as usize] } else { Seq::empty() };
        assert(flat_children_from(f, i, k) == head + flat_children_from(f, i, k + 1));
    }
}

/// The tree of a node list that fits a source of `n` bytes fits it too.
proof fn lemma_tree_from_flat_fits(f: Seq<FlatView>, n: nat)
    requires
        flat_fits(f, n),
        f.len() <= usize::MAX,
    ensures
        tree_fits(tree_from_flat(f), n),
{
    let t = tree_from_flat(f);
    assert forall|i: int| 0 <= i < t.len() implies {
        &&& (#[trigger] t[i]).start_byte <= t[i].end_byte <= n
        &&& t[i].start_row < usize::MAX
        &&& t[i].end_row < usize::MAX
        &&& (forall|k: int| 0 <= k < t[i].children.len() ==> i < #[trigger] t[i].children[k] < t.len())
        &&& (t[i].parent matches Some(p) ==> p < t.len())
        &&& (t[i].prev_sibling matches Some(q) ==> q < t.len())
    } by {
        assert(f[i].start_byte <= f[i].end_byte <= n);
        lemma_flat_parent_before(f, i, i - 1);
        lemma_flat_prev_before(f, i, i - 1);
        lemma_flat_children_range(f, i, i + 1);
    }
}

proof fn lemma_flat_parent_found(f: Seq<FlatView>, i: int, j: int)
    requires
        j < i,
        f.len() <= usize::MAX,
        i < f.len(),
    ensures
        flat_parent_from(f, i, j) matches Some(p) ==> {
            &&& 0 <= p <= j
            &&& f[p as int].depth < f[i].depth
            &&& forall|m: int| p < m <= j ==> f[m].depth >= f[i].depth
        },
    decreases j + 1,
{
    if j >= 0 && !(f[j].depth < f[i].depth) {
        lemma_flat_parent_found(f, i, j - 1);
    }
}

proof fn lemma_children_contain(f: Seq<FlatView>, p: int, i: int, k: int)
    requires
        0 <= p < k <= i < f.len(),
        f.len() <= usize::MAX,
        flat_parent(f, i) == Some(p as usize),
        f[i].depth > f[p].depth,
        forall|m: int| k <= m < i ==> f[m].depth > f[p].depth,
    ensures
        flat_children_from(f, p, k).contains(i as usize),
    decreases i - k,
{
    let rest = flat_children_from(f, p, k + 1);
    if k == i {
        assert(flat_children_from(f, p, k) == seq![k as usize] + rest);
        assert((seq![k as usize] + rest)[0] == i as usize);
    } else {
        lemma_children_contain(f, p, i, k + 1);
        let head: Seq<usize> = if flat_parent(f, k) == Some(p as usize) { seq![k as usize] } else { Seq::empty() };
        assert(flat_children_from(f, p, k) == head + rest);
        let w = choose|w: int| 0 <= w < rest.len() && rest[w] == i as usize;
        assert((head + rest)[head.len() + w] == i as usize);
    }
}

proof fn lemma_children_have_parent(f: Seq<FlatView>, p: int, k: int)
    requires
        0 <= p < k,
        f.len() <= usize::MAX,
    ensures
        forall|w: int| 0 <= w < flat_children_from(f, p, k).len() ==> flat_parent(f, #[trigger] flat_children_from(f, p, k)[w] as int) == Some(p as usize),
    decreases f.len() - k,
{
    if !(k <= p || k >= f.len() || f[k].depth <= f[p].depth) {
        lemma_children_have_parent(f, p, k + 1);
        let rest = flat_children_from(f, p, k + 1);
        let head: Seq<usize> = if flat_parent(f, k) == Some(p as usize) { seq![k as usize] } else { Seq::empty() };
        assert(flat_children_from(f, p, k) == head + rest);
        assert forall|w: int| 0 <= w < (head + rest).len() implies flat_parent(f, #[trigger] (head + rest)[w] as int) == Some(p as usize) by {
            if w < head.len() {
                assert((head + rest)[w] == k as usize);
            } else {
                assert((head + rest)[w] == rest[w - head.len()]);
            }
        }
    }
}

/// In the tree built from a node list, a node's parent lists it among its
/// children, and each child of a node has that node as its parent.
pub proof fn lemma_tree_from_flat_links(f: Seq<FlatView>, i: int)
    requires
        0 <= i < f.len(),
        f.len() <= usize::MAX,
    ensures
        tree_from_flat(f)[i].parent matches Some(p) ==> tree_from_flat(f)[p as int].children.contains(i as usize),
        forall|w: int| 0 <= w < tree_from_flat(f)[i].children.len()
            ==> tree_from_flat(f)[#[trigger] tree_from_flat(f)[i].children[w] as int].parent == Some(i as usize),
{
    let t = tree_from_flat(f);
    lemma_flat_parent_found(f, i, i - 1);
    if let Some(p) = flat_parent(f, i) {
        assert(t[p as int].children == flat_children_from(f, p as int, p + 1));
        if p + 1 <= i {
            lemma_children_contain(f, p as int, i, p + 1);
        }
    }
    lemma_children_have_parent(f, i, i + 1);
    lemma_flat_children_range(f, i, i + 1);
    assert forall|w: int| 0 <= w < t[i].children.len() implies t[#[trigger] t[i].children[w] as int].parent == Some(i as usize) by {
        let c = t[i].children[w] as int;
        assert(flat_children_from(f, i, i + 1)[w] as int == c);
        assert(0 <= c < f.len());
    }
}

fn flat_parent_of(f: &Vec<FlatNode>, i: usize) -> (r: Option<usize>)
    requires
        i < f@.len(),
    ensures
        r == flat_parent(flat_view(f@), i as int),
{
    let ghost fv = flat_view(f@);
    let mut j: usize = i;
    while j > 0
        invariant
            j <= i < f@.len(),
            fv == flat_view(f@),
            flat_parent_from(fv, i as int, j - 1) == flat_parent(fv, i as int),
        decreases j,
    {
        if f[j - 1].depth < f[i].depth {
            return Some(j - 1);
        }
        j = j - 1;
    }
    None
}

fn flat_prev_of(f: &Vec<FlatNode>, i: usize) -> (r: Option<usize>)
    requires
        i < f@.len(),
    ensures
        r == flat_prev(flat_view(f@), i as int),
{
    let ghost fv = flat_view(f@);
    let mut j: usize = i;
    while j > 0
        invariant
            j <= i < f@.len(),
            fv == flat_view(f@),
            flat_prev_from(fv, i as int, j - 1) == flat_prev(fv, i as int),
        decreases j,
    {
        if f[j - 1].depth < f[i].depth {
            return None;
        }
        if f[j - 1].depth == f[i].depth {
            return Some(j - 1);
        }
        j = j - 1;
    }
    None
}

fn flat_children_of(f: &Vec<FlatNode>, parents: &Vec<Option<usize>>, i: usize) -> (r: Vec<usize>)
    requires
        i < f@.len(),
        parents@.len() == f@.len(),
        forall|k: int| 0 <= k < f@.len() ==> #[trigger] parents@[k] == flat_parent(flat_view(f@), k),
    ensures
        r@ == flat_children_from(flat_view(f@), i as int, i + 1),
{
    let ghost fv = flat_view(f@);
    let mut out: Vec<usize> = Vec::new();
    let len = f.len();
    let mut k: usize = i + 1;
    while k < len && f[k].depth > f[i].depth
        invariant
            i < k <= f@.len(),
            len == f@.len(),
            fv == flat_view(f@),
            parents@.len() == f@.len(),
            forall|m: int| 0 <= m < f@.len() ==> #[trigger] parents@[m] == flat_parent(fv, m),
            out@ + flat_children_from(fv, i as int, k as int) == flat_children_from(fv, i as int, i + 1),
        decreases f@.len() - k,
    {
        let ghost before = out@;
        let ghost rest = flat_children_from(fv, i as int, k + 1);
        let is_child = match parents[k] {
            Some(p) => p == i,
            None => false,
        };
        assert(parents@[k as int] == flat_parent(fv, k as int));
        if is_child {
            out.push(k);
            assert(flat_children_from(fv, i as int, k as int) == seq![k] + rest);
            assert(before + (seq![k] + rest) =~= out@ + rest);
        } else {
            assert(flat_children_from(fv, i as int, k as int) == Seq::<usize>::empty() + rest);
            assert(Seq::<usize>::empty() + rest =~= rest);
        }
        k = k + 1;
    }
    proof {
        assert(flat_children_from(fv, i as int, k as int) =~= Seq::<usize>::empty());
        assert(out@ + Seq::<usize>::empty() =~= out@);
    }
    out
}

fn copy_opt_string(o: &Option<String>) -> (r: Option<String>)
    ensures
        opt_view(r) == opt_view(*o),
{
    match o {
        Some(x) => Some(x.clone()),
        None => None,
    }
}

/// The syntax tree that a parser's document-order node list describes, or
/// `None` when a node's span does not lie in a source of `source_len` bytes.
pub fn tree_from_nodes(f: &Vec<FlatNode>, source_len: usize) -> (r: Option<SyntaxTree>)
    ensures
        match r {
            Some(t) => flat_fits(flat_view(f@), source_len as nat) && t@ == tree_from_flat(flat_view(f@))
                && tree_fits(t@, source_len as nat),
            None => !flat_fits(flat_view(f@), source_len as nat),
        },
{
    let ghost fv = flat_view(f@);
    let mut c: usize = 0;
    while c < f.len()
        invariant
            c <= f@.len(),
            fv == flat_view(f@),
            forall|m: int| 0 <= m < c ==> {
                &&& (#[trigger] fv[m]).start_byte <= fv[m].end_byte <= source_len
                &&& fv[m].start_row < usize::MAX
                &&& fv[m].end_row < usize::MAX
            },
        decreases f@.len() - c,
    {
        let n = &f[c];
        assert(fv[c as int] == n@);
        if !(n.start_byte <= n.end_byte && n.end_byte <= source_len && n.start_row < usize::MAX && n.end_row < usize::MAX) {
            return None;
        }
        c = c + 1;
    }
    let mut parents: Vec<Option<usize>> = Vec::new();
    let mut k: usize = 0;
    while k < f.len()
        invariant
            k <= f@.len(),
            fv == flat_view(f@),
            parents@.len() == k,
            forall|m: int| 0 <= m < k ==> #[trigger] parents@[m] == flat_parent(fv, m),
        decreases f@.len() - k,
    {
        parents.push(flat_parent_of(f, k));
        k = k + 1;
    }
    let mut nodes: Vec<SyntaxNode> = Vec::new();
    let mut i: usize = 0;
    while i < f.len()
        invariant
            i <= f@.len(),
            fv == flat_view(f@),
            parents@.len() == f@.len(),
            forall|m: int| 0 <= m < f@.len() ==> #[trigger] parents@[m] == flat_parent(fv, m),
            nodes@.len() == i,
            forall|m: int| 0 <= m < i ==> (#[trigger] nodes@[m])@ == tree_from_flat(fv)[m],
        decreases f@.len() - i,
    {
        let n = &f[i];
        assert(fv[i as int] == n@);
        let children = flat_children_of(f, &parents, i);
        let node = SyntaxNode {
            kind: n.kind.clone(),
            field: copy_opt_string(&n.field),
            start_byte: n.start_byte,
            end_byte: n.end_byte,
            start_row: n.start_row,
            end_row: n.end_row,
            parent: parents[i],
            prev_sibling: flat_prev_of(f, i),
            children,
        };
        nodes.push(node);
        i = i + 1;
    }
    let t = SyntaxTree { nodes };
    proof {
        assert(t@ =~= tree_from_flat(fv));
        assert(flat_fits(fv, source_len as nat));
        lemma_tree_from_flat_fits(fv, source_len as nat);
    }
    Some(t)
}

} // verus!
