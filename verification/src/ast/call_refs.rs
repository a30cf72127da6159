//! Call references found in source files: which function calls which,
//! where.
use vstd::prelude::*;

use crate::ast::language::Language;
use crate::ast::tree::{child_by_field, field_child, kind_is, lines_of, node_lines, node_text, text_of, tree_fits, SyntaxTree, TreeView};

verus! {

/// A call from one function to another.
#[derive(Debug)]
pub struct CallReference {
    pub caller_name: String,
    pub callee_name: String,
    pub file_path: String,
    pub line: usize,
}

pub type RefView = (Seq<char>, Seq<char>, Seq<char>, usize);

impl View for CallReference {
    type V = RefView;

    open spec fn view(&self) -> RefView {
        (self.caller_name@, self.callee_name@, self.file_path@, self.line)
    }
}

pub open spec fn refs_view(v: Seq<CallReference>) -> Seq<RefView> {
    v.map_values(|r: CallReference| r@)
}

pub open spec fn opt_text(t: TreeView, src: Seq<u8>, c: Option<int>) -> Option<Seq<char>> {
    match c {
        Some(c) => Some(text_of(t, src, c)),
        None => None,
    }
}

pub open spec fn or_anonymous(o: Option<Seq<char>>) -> Seq<char> {
    match o {
        Some(s) => s,
        None => "<anonymous>"@,
    }
}

/// A text without its leading `*`s.
pub open spec fn trim_stars(s: Seq<char>) -> Seq<char>
    decreases s.len(),
{
    if s.len() > 0 && s[0] == '*' {
        trim_stars(s.drop_first())
    } else {
        s
    }
}

/// The name a call expression calls: the called expression's text, or for
/// a member access the member's name.
pub open spec fn callee_spec(lang: Language, t: TreeView, src: Seq<u8>, i: int) -> Option<Seq<char>> {
    match field_child(t, i, "function"@) {
        None => None,
        Some(f) => {
            let member = match lang {
                Language::Rust => if t[f].kind == "field_expression"@ { Some("field"@) } else { None },
                Language::Go => if t[f].kind == "selector_expression"@ { Some("field"@) } else { None },
                Language::Python => if t[f].kind == "attribute"@ { Some("attribute"@) } else { None },
                _ => if t[f].kind == "member_expression"@ { Some("property"@) } else { None },
            };
            match member {
                Some(m) => opt_text(t, src, field_child(t, f, m)),
                None => Some(text_of(t, src, f)),
            }
        },
    }
}

/// Whether node `i` is a call in this language.
pub open spec fn is_call(lang: Language, k: Seq<char>) -> bool {
    if lang is Python {
        k == "call"@
    } else {
        k == "call_expression"@
    }
}

/// The receiver type of a Go method: the type of the first receiver
/// parameter that has one, without leading `*`s.
pub open spec fn go_receiver_from(t: TreeView, src: Seq<u8>, r: int, k: int) -> Option<Seq<char>>
    decreases t[r].children.len() - k,
{
    if k < 0 || k >= t[r].children.len() {
        None
    } else {
        let c = t[r].children[k] as int;
        if t[c].kind == "parameter_declaration"@ && field_child(t, c, "type"@) is Some {
            Some(trim_stars(text_of(t, src, field_child(t, c, "type"@)->0)))
        } else {
            go_receiver_from(t, src, r, k + 1)
        }
    }
}

pub open spec fn go_receiver(t: TreeView, src: Seq<u8>, i: int) -> Option<Seq<char>> {
    match field_child(t, i, "receiver"@) {
        Some(r) => go_receiver_from(t, src, r, 0),
        None => None,
    }
}

pub open spec fn join_names(a: Option<Seq<char>>, b: Seq<char>) -> Seq<char> {
    match a {
        Some(a) => a + "::"@ + b,
        None => b,
    }
}

/// The calls found in the subtree at `i`, made from the function `cur`.
pub open spec fn calls_node(lang: Language, t: TreeView, src: Seq<u8>, path: Seq<char>, cur: Option<Seq<char>>, i: int) -> Seq<RefView>
    decreases t.len() - i, t[i].children.len() + 1,
{
    if i < 0 || i >= t.len() {
        Seq::empty()
    } else {
        let k = t[i].kind;
        let name = opt_text(t, src, field_child(t, i, "name"@));
        if (lang is Rust && k == "function_item"@) || ((lang is Go) && k == "function_declaration"@)
            || (lang is Python && k == "function_definition"@) || (!(lang is Rust || lang is Go || lang is Python)
            && (k == "function_declaration"@ || k == "method_definition"@)) {
            calls_children(lang, t, src, path, Some(or_anonymous(name)), i, 0)
        } else if lang is Rust && k == "impl_item"@ {
            match field_child(t, i, "body"@) {
                Some(b) => if i < b < t.len() {
                    impl_body_calls(t, src, path, opt_text(t, src, field_child(t, i, "type"@)), cur, b, 0)
                } else {
                    Seq::empty()
                },
                None => Seq::empty(),
            }
        } else if lang is Go && k == "method_declaration"@ {
            match name {
                Some(m) => calls_children(lang, t, src, path, Some(join_names(go_receiver(t, src, i), m)), i, 0),
                None => calls_children(lang, t, src, path, cur, i, 0),
            }
        } else if !(lang is Rust || lang is Go || lang is Python) && (k == "arrow_function"@ || k == "function_expression"@
            || k == "function"@) {
            let pname = match t[i].parent {
                Some(p) => if p < t.len() { opt_text(t, src, field_child(t, p as int, "name"@)) } else { None },
                None => None,
            };
            let fname = match pname {
                Some(n) => n,
                None => or_anonymous(cur),
            };
            calls_children(lang, t, src, path, Some(fname), i, 0)
        } else if is_call(lang, k) {
            (match (cur, callee_spec(lang, t, src, i)) {
                (Some(c), Some(e)) => seq![(c, e, path, lines_of(t, i).0)],
                _ => Seq::empty(),
            }) + calls_children(lang, t, src, path, cur, i, 0)
        } else {
            calls_children(lang, t, src, path, cur, i, 0)
        }
    }
}

/// The calls in the children of `i` from position `k` on.
pub open spec fn calls_children(lang: Language, t: TreeView, src: Seq<u8>, path: Seq<char>, cur: Option<Seq<char>>, i: int, k: int) -> Seq<RefView>
    decreases t.len() - i, t[i].children.len() - k,
{
    if i < 0 || i >= t.len() || k < 0 || k >= t[i].children.len() {
        Seq::empty()
    } else {
        let c = t[i].children[k] as int;
        (if i < c < t.len() { calls_node(lang, t, src, path, cur, c) } else { Seq::empty() })
            + calls_children(lang, t, src, path, cur, i, k + 1)
    }
}

/// The calls in the items of a Rust impl body `b` from position `k` on:
/// each method's calls are made from `Type::method` (from `method` when
/// the impl has no type); other items are searched as they are.
pub open spec fn impl_body_calls(t: TreeView, src: Seq<u8>, path: Seq<char>, ty: Option<Seq<char>>, cur: Option<Seq<char>>, b: int, k: int) -> Seq<RefView>
    decreases t.len() - b, t[b].children.len() - k,
{
    if b < 0 || b >= t.len() || k < 0 || k >= t[b].children.len() {
        Seq::empty()
    } else {
        let c = t[b].children[k] as int;
        (if b < c < t.len() {
            if t[c].kind == "function_item"@ {
                match opt_text(t, src, field_child(t, c, "name"@)) {
                    Some(m) => calls_children(Language::Rust, t, src, path, Some(join_names(ty, m)), c, 0),
                    None => Seq::empty(),
                }
            } else {
                calls_node(Language::Rust, t, src, path, cur, c)
            }
        } else {
            Seq::empty()
        }) + impl_body_calls(t, src, path, ty, cur, b, k + 1)
    }
}

fn opt_node_text(t: &SyntaxTree, src: &[u8], c: Option<usize>) -> (r: Option<String>)
    requires
        tree_fits(t@, src@.len()),
        c matches Some(x) ==> x < t@.len(),
    ensures
        crate::ast::symbol::opt_view(r) == opt_text(t@, src@, match c { Some(x) => Some(x as int), None => None }),
{
    match c {
        Some(x) => Some(node_text(t, src, x)),
        None => None,
    }
}

fn callee(lang: Language, t: &SyntaxTree, src: &[u8], i: usize) -> (r: Option<String>)
    requires
        tree_fits(t@, src@.len()),
        i < t@.len(),
    ensures
        crate::ast::symbol::opt_view(r) == callee_spec(lang, t@, src@, i as int),
{
    match child_by_field(t, i, "function") {
        None => None,
        Some(f) => {
            let member: Option<&str> = match lang {
                Language::Rust => if kind_is(t, f, "field_expression") { Some("field") } else { None },
                Language::Go => if kind_is(t, f, "selector_expression") { Some("field") } else { None },
                Language::Python => if kind_is(t, f, "attribute") { Some("attribute") } else { None },
                _ => if kind_is(t, f, "member_expression") { Some("property") } else { None },
            };
            match member {
                Some(m) => {
                    let c = child_by_field(t, f, m);
                    opt_node_text(t, src, c)
                },
                None => Some(node_text(t, src, f)),
            }
        },
    }
}

pub(crate) fn trim_leading_stars(s: &String) -> (r: String)
    ensures
        r@ == trim_stars(s@),
{
    let c = crate::text::chars_of(s.as_str());
    let mut i: usize = 0;
    proof {
        assert(c@.skip(0) =~= c@);
    }
    while i < c.len() && c[i] == '*'
        invariant
            i <= c@.len(),
            trim_stars(c@.skip(i as int)) == trim_stars(c@),
        decreases c.len() - i,
    {
        proof {
            assert(c@.skip(i as int).drop_first() =~= c@.skip(i + 1));
        }
        i = i + 1;
    }
    let mut out: Vec<char> = Vec::new();
    let mut k = i;
    while k < c.len()
        invariant
            i <= k <= c@.len(),
            out@ == c@.subrange(i as int, k as int),
        decreases c.len() - k,
    {
        out.push(c[k]);
        k = k + 1;
        assert(out@ =~= c@.subrange(i as int, k as int));
    }
    proof {
        assert(out@ =~= c@.skip(i as int));
        if i < c@.len() {
            assert(c@.skip(i as int)[0] == c@[i as int]);
        }
        assert(trim_stars(c@.skip(i as int)) == c@.skip(i as int));
    }
    crate::text::string_from_chars(out.as_slice())
}

fn go_receiver_of(t: &SyntaxTree, src: &[u8], i: usize) -> (r: Option<String>)
    requires
        tree_fits(t@, src@.len()),
        i < t@.len(),
    ensures
        crate::ast::symbol::opt_view(r) == go_receiver(t@, src@, i as int),
{
    let ghost tv = t@;
    match child_by_field(t, i, "receiver") {
        None => None,
        Some(r) => {
            let rn = &t.nodes[r];
            assert(tv[r as int] == rn@);
            let mut k: usize = 0;
            while k < rn.children.len()
                invariant
                    k <= rn.children@.len(),
                    tv == t@,
                    tree_fits(tv, src@.len()),
                    r < tv.len(),
                    i < tv.len(),
                    tv[r as int] == rn@,
                    field_child(tv, i as int, "receiver"@) == Some(r as int),
                    go_receiver_from(tv, src@, r as int, k as int) == go_receiver_from(tv, src@, r as int, 0),
                decreases rn.children.len() - k,
            {
                let c = rn.children[k];
                assert(r < tv[r as int].children[k as int] < tv.len());
                if kind_is(t, c, "parameter_declaration") {
                    match child_by_field(t, c, "type") {
                        Some(ty) => {
                            let text = node_text(t, src, ty);
                            return Some(trim_leading_stars(&text));
                        },
                        None => {},
                    }
                }
                k = k + 1;
            }
            None
        },
    }
}

fn joined(a: &Option<String>, b: &String) -> (r: String)
    ensures
        r@ == join_names(crate::ast::symbol::opt_view(*a), b@),
{
    match a {
        Some(a) => {
            let mut s = a.clone();
            crate::text::push_str(&mut s, "::");
            crate::text::push_str(&mut s, b.as_str());
            s
        },
        None => b.clone(),
    }
}

fn copy_opt_string(o: &Option<String>) -> (r: Option<String>)
    ensures
        crate::ast::symbol::opt_view(r) == crate::ast::symbol::opt_view(*o),
{
    match o {
        Some(s) => Some(s.clone()),
        None => None,
    }
}

fn push_ref(out: &mut Vec<CallReference>, r: CallReference)
    ensures
        refs_view(final(out)@) == refs_view(old(out)@).push(r@),
{
    let ghost before = refs_view(out@);
    let ghost rv = r@;
    out.push(r);
    assert(refs_view(out@) =~= before.push(rv));
}

fn calls_of_children(lang: Language, t: &SyntaxTree, src: &[u8], path: &str, cur: &Option<String>, i: usize, out: &mut Vec<CallReference>)
    requires
        tree_fits(t@, src@.len()),
        i < t@.len(),
    ensures
        refs_view(final(out)@) == refs_view(old(out)@) + calls_children(lang, t@, src@, path@, crate::ast::symbol::opt_view(*cur), i as int, 0),
    decreases t@.len() - i, 0nat,
{
    let ghost tv = t@;
    let ghost cv = crate::ast::symbol::opt_view(*cur);
    let ghost base = refs_view(out@);
    let n = &t.nodes[i];
    assert(tv[i as int] == n@);
    let mut k: usize = 0;
    while k < n.children.len()
        invariant
            k <= n.children@.len(),
            tv == t@,
            cv == crate::ast::symbol::opt_view(*cur),
            tree_fits(tv, src@.len()),
            i < tv.len(),
            tv[i as int] == n@,
            base + calls_children(lang, tv, src@, path@, cv, i as int, 0) == refs_view(out@) + calls_children(lang, tv, src@, path@, cv, i as int, k as int),
        decreases n.children.len() - k,
    {
        let c = n.children[k];
        assert(i < tv[i as int].children[k as int] < tv.len());
        let ghost mid = refs_view(out@);
        calls_in(lang, t, src, path, cur, c, out);
        proof {
            let rest = calls_children(lang, tv, src@, path@, cv, i as int, k + 1);
            assert(calls_children(lang, tv, src@, path@, cv, i as int, k as int) == calls_node(lang, tv, src@, path@, cv, c as int) + rest);
            assert(mid + (calls_node(lang, tv, src@, path@, cv, c as int) + rest) =~= refs_view(out@) + rest);
        }
        k = k + 1;
    }
    proof {
        assert(refs_view(out@) + calls_children(lang, tv, src@, path@, cv, i as int, k as int) =~= refs_view(out@));
    }
}

fn calls_of_impl_body(t: &SyntaxTree, src: &[u8], path: &str, ty: &Option<String>, cur: &Option<String>, b: usize, out: &mut Vec<CallReference>)
    requires
        tree_fits(t@, src@.len()),
        b < t@.len(),
    ensures
        refs_view(final(out)@) == refs_view(old(out)@) + impl_body_calls(t@, src@, path@, crate::ast::symbol::opt_view(*ty), crate::ast::symbol::opt_view(*cur), b as int, 0),
    decreases t@.len() - b, 0nat,
{
    let ghost tv = t@;
    let ghost tyv = crate::ast::symbol::opt_view(*ty);
    let ghost cv = crate::ast::symbol::opt_view(*cur);
    let ghost base = refs_view(out@);
    let n = &t.nodes[b];
    assert(tv[b as int] == n@);
    let mut k: usize = 0;
    while k < n.children.len()
        invariant
            k <= n.children@.len(),
            tv == t@,
            tyv == crate::ast::symbol::opt_view(*ty),
            cv == crate::ast::symbol::opt_view(*cur),
            tree_fits(tv, src@.len()),
            b < tv.len(),
            tv[b as int] == n@,
            base + impl_body_calls(tv, src@, path@, tyv, cv, b as int, 0) == refs_view(out@) + impl_body_calls(tv, src@, path@, tyv, cv, b as int, k as int),
        decreases n.children.len() - k,
    {
        let c = n.children[k];
        assert(b < tv[b as int].children[k as int] < tv.len());
        let ghost mid = refs_view(out@);
        let ghost part = if tv[c as int].kind == "function_item"@ {
            match opt_text(tv, src@, field_child(tv, c as int, "name"@)) {
                Some(m) => calls_children(Language::Rust, tv, src@, path@, Some(join_names(tyv, m)), c as int, 0),
                None => Seq::empty(),
            }
        } else {
            calls_node(Language::Rust, tv, src@, path@, cv, c as int)
        };
        if kind_is(t, c, "function_item") {
            let nm = child_by_field(t, c, "name");
            match nm {
                Some(x) => {
                    let m = node_text(t, src, x);
                    let q = Some(joined(ty, &m));
                    calls_of_children(Language::Rust, t, src, path, &q, c, out);
                },
                None => {
                    proof {
                        assert(refs_view(out@) + Seq::<RefView>::empty() =~= refs_view(out@));
                    }
                },
            }
        } else {
            calls_in(Language::Rust, t, src, path, cur, c, out);
        }
        proof {
            let rest = impl_body_calls(tv, src@, path@, tyv, cv, b as int, k + 1);
            assert(impl_body_calls(tv, src@, path@, tyv, cv, b as int, k as int) == part + rest);
            assert(refs_view(out@) == mid + part);
            assert(mid + (part + rest) =~= refs_view(out@) + rest);
        }
        k = k + 1;
    }
    proof {
        assert(refs_view(out@) + impl_body_calls(tv, src@, path@, tyv, cv, b as int, k as int) =~= refs_view(out@));
    }
}

/// Adds the calls in the subtree at `i`, made from the function `cur`.
fn calls_in(lang: Language, t: &SyntaxTree, src: &[u8], path: &str, cur: &Option<String>, i: usize, out: &mut Vec<CallReference>)
    requires
        tree_fits(t@, src@.len()),
        i < t@.len(),
    ensures
        refs_view(final(out)@) == refs_view(old(out)@) + calls_node(lang, t@, src@, path@, crate::ast::symbol::opt_view(*cur), i as int),
    decreases t@.len() - i, 1nat,
{
    let ghost tv = t@;
    let ghost cv = crate::ast::symbol::opt_view(*cur);
    let ghost base = refs_view(out@);
    let is_rust = matches!(lang, Language::Rust);
    let is_go = matches!(lang, Language::Go);
    let is_py = matches!(lang, Language::Python);
    let is_ts = !(is_rust || is_go || is_py);
    let starts_fn = (is_rust && kind_is(t, i, "function_item")) || (is_go && kind_is(t, i, "function_declaration"))
        || (is_py && kind_is(t, i, "function_definition")) || (is_ts && (kind_is(t, i, "function_declaration")
        || kind_is(t, i, "method_definition")));
    let nm = child_by_field(t, i, "name");
    let name = opt_node_text(t, src, nm);
    if starts_fn {
        let f = Some(match name {
            Some(n) => n,
            None => String::from_str("<anonymous>"),
        });
        calls_of_children(lang, t, src, path, &f, i, out);
    } else if is_rust && kind_is(t, i, "impl_item") {
        let tyn = child_by_field(t, i, "type");
        let ty = opt_node_text(t, src, tyn);
        match child_by_field(t, i, "body") {
            Some(b) => calls_of_impl_body(t, src, path, &ty, cur, b, out),
            None => {
                proof {
                    assert(refs_view(out@) + Seq::<RefView>::empty() =~= refs_view(out@));
                }
            },
        }
    } else if is_go && kind_is(t, i, "method_declaration") {
        match name {
            Some(m) => {
                let recv = go_receiver_of(t, src, i);
                let q = Some(joined(&recv, &m));
                calls_of_children(lang, t, src, path, &q, i, out);
            },
            None => calls_of_children(lang, t, src, path, cur, i, out),
        }
    } else if is_ts && (kind_is(t, i, "arrow_function") || kind_is(t, i, "function_expression") || kind_is(t, i, "function")) {
        assert(tv[i as int] == t.nodes@[i as int]@);
        let pname: Option<String> = match t.nodes[i].parent {
            Some(p) => if p < t.nodes.len() {
                let pn = child_by_field(t, p, "name");
                opt_node_text(t, src, pn)
            } else {
                None
            },
            None => None,
        };
        let f = Some(match pname {
            Some(n) => n,
            None => match cur {
                Some(c) => c.clone(),
                None => String::from_str("<anonymous>"),
            },
        });
        calls_of_children(lang, t, src, path, &f, i, out);
    } else if (is_py && kind_is(t, i, "call")) || (!is_py && kind_is(t, i, "call_expression")) {
        match cur {
            Some(c) => match callee(lang, t, src, i) {
                Some(e) => {
                    let line = node_lines(t, i).0;
                    push_ref(out, CallReference { caller_name: c.clone(), callee_name: e, file_path: String::from_str(path), line });
                },
                None => {},
            },
            None => {},
        }
        let ghost mid = refs_view(out@);
        calls_of_children(lang, t, src, path, cur, i, out);
        proof {
            assert(refs_view(out@) =~= base + calls_node(lang, tv, src@, path@, cv, i as int));
        }
    } else {
        calls_of_children(lang, t, src, path, cur, i, out);
    }
}

/// The calls of a parsed file (`tree` parsed from `source`), each from the
/// function that makes it, in document order.
pub fn extract_call_references(t: &SyntaxTree, source: &[u8], path: &str, language: Language) -> (r: Vec<CallReference>)
    requires
        tree_fits(t@, source@.len()),
    ensures
        refs_view(r@) == (if t@.len() > 0 { calls_node(language, t@, source@, path@, None, 0) } else { Seq::empty() }),
{
    let mut out: Vec<CallReference> = Vec::new();
    proof {
        assert(refs_view(out@) =~= Seq::<RefView>::empty());
    }
    if t.nodes.len() > 0 {
        let none: Option<String> = None;
        calls_in(language, t, source, path, &none, 0, &mut out);
        proof {
            assert(refs_view(out@) =~= calls_node(language, t@, source@, path@, None, 0));
        }
    }
    out
}

} // verus!
