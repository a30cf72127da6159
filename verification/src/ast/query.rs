//! The symbols of a parsed source file: functions, methods, types and
//! constants, with their names, spans, visibility and signatures.
use vstd::prelude::*;

use crate::ast::language::Language;
use crate::ast::symbol::{build_signature, opt_view, params_view, signature_text, Parameter, ParameterView, Symbol, SymbolKind, SymbolView, Visibility};
use crate::ast::tree::{
    child_by_field, field_child, kind_is, lemma_field_child_range, lines_of, make_symbol, node_lines,
    node_text, symbol_spec, text_of, tree_fits, SyntaxTree, TreeView,
};
use crate::diff::matcher::syms_view;
use crate::ast::call_refs::{trim_leading_stars, trim_stars};
use crate::repo::similarity::{is_uppercase, uppercase_char};
use crate::text::{chars_of, contains_chars, contains_seq, push_str, str_eq};

verus! {

// ------------------------------------------------------------------- Rust

/// Visibility of a Rust item: `pub(crate)`-like when its visibility
/// modifier mentions `crate`, public with any other modifier, else private.
pub open spec fn rust_visibility_from(t: TreeView, src: Seq<u8>, i: int, k: int) -> Visibility
    decreases t[i].children.len() - k,
{
    if k < 0 || k >= t[i].children.len() {
        Visibility::Private
    } else if t[t[i].children[k] as int].kind == "visibility_modifier"@ {
        if contains_seq(text_of(t, src, t[i].children[k] as int), "crate"@) {
            Visibility::Crate
        } else {
            Visibility::Public
        }
    } else {
        rust_visibility_from(t, src, i, k + 1)
    }
}

pub open spec fn opt_text(t: TreeView, src: Seq<u8>, c: Option<int>) -> Option<Seq<char>> {
    match c {
        Some(c) => Some(text_of(t, src, c)),
        None => None,
    }
}

/// The parameters listed by the children of a parameter list from `k` on.
pub open spec fn rust_params_from(t: TreeView, src: Seq<u8>, p: int, k: int) -> Seq<ParameterView>
    decreases t[p].children.len() - k,
{
    if k < 0 || k >= t[p].children.len() {
        Seq::empty()
    } else {
        let c = t[p].children[k] as int;
        let rest = rust_params_from(t, src, p, k + 1);
        if t[c].kind == "parameter"@ {
            seq![ParameterView {
                name: match field_child(t, c, "pattern"@) {
                    Some(n) => text_of(t, src, n),
                    None => Seq::empty(),
                },
                type_annotation: opt_text(t, src, field_child(t, c, "type"@)),
            }] + rest
        } else if t[c].kind == "self_parameter"@ {
            seq![ParameterView { name: text_of(t, src, c), type_annotation: None }] + rest
        } else {
            rest
        }
    }
}

pub open spec fn rust_params(t: TreeView, src: Seq<u8>, i: int) -> Seq<ParameterView> {
    match field_child(t, i, "parameters"@) {
        Some(p) => rust_params_from(t, src, p, 0),
        None => Seq::empty(),
    }
}

pub open spec fn qualify(parent: Option<Seq<char>>, name: Seq<char>) -> Seq<char> {
    match parent {
        Some(p) => p + "::"@ + name,
        None => name,
    }
}

/// A Rust function (a method inside a type, trait or impl).
pub open spec fn rust_function(t: TreeView, src: Seq<u8>, path: Seq<char>, parent: Option<Seq<char>>, i: int) -> Option<SymbolView> {
    match field_child(t, i, "name"@) {
        None => None,
        Some(nn) => {
            let name = text_of(t, src, nn);
            let params = rust_params(t, src, i);
            let ret = opt_text(t, src, field_child(t, i, "return_type"@));
            Some(symbol_spec(
                if parent is Some { SymbolKind::Method } else { SymbolKind::Function },
                name,
                qualify(parent, name),
                path,
                lines_of(t, i),
                signature_text(name, params, ret),
                text_of(t, src, i),
                parent,
                rust_visibility_from(t, src, i, 0),
                params,
                ret,
            ))
        },
    }
}

/// A Rust struct, enum, trait or type alias.
pub open spec fn rust_type_def(t: TreeView, src: Seq<u8>, path: Seq<char>, kind: SymbolKind, i: int) -> Option<SymbolView> {
    match field_child(t, i, "name"@) {
        None => None,
        Some(nn) => {
            let name = text_of(t, src, nn);
            Some(symbol_spec(kind, name, name, path, lines_of(t, i), Seq::empty(), text_of(t, src, i), None,
                rust_visibility_from(t, src, i, 0), Seq::empty(), None))
        },
    }
}

/// A Rust constant or static.
pub open spec fn rust_const(t: TreeView, src: Seq<u8>, path: Seq<char>, parent: Option<Seq<char>>, i: int) -> Option<SymbolView> {
    match field_child(t, i, "name"@) {
        None => None,
        Some(nn) => {
            let name = text_of(t, src, nn);
            Some(symbol_spec(SymbolKind::Constant, name, qualify(parent, name), path, lines_of(t, i), Seq::empty(),
                text_of(t, src, i), parent, rust_visibility_from(t, src, i, 0), Seq::empty(), None))
        },
    }
}

pub open spec fn opt_seq(o: Option<SymbolView>) -> Seq<SymbolView> {
    match o {
        Some(s) => seq![s],
        None => Seq::empty(),
    }
}

/// The symbols of the subtree at `i`, with `parent` the enclosing type.
pub open spec fn rust_node(t: TreeView, src: Seq<u8>, path: Seq<char>, parent: Option<Seq<char>>, i: int) -> Seq<SymbolView>
    decreases t.len() - i, t[i].children.len() + 1,
{
    if i < 0 || i >= t.len() {
        Seq::empty()
    } else {
        let k = t[i].kind;
        if k == "function_item"@ || k == "function_signature_item"@ {
            opt_seq(rust_function(t, src, path, parent, i)) + rust_children(t, src, path, parent, i, 0)
        } else if k == "struct_item"@ {
            match rust_type_def(t, src, path, SymbolKind::Struct, i) {
                Some(s) => seq![s] + rust_children(t, src, path, Some(s.name), i, 0),
                None => rust_children(t, src, path, parent, i, 0),
            }
        } else if k == "enum_item"@ {
            opt_seq(rust_type_def(t, src, path, SymbolKind::Enum, i)) + rust_children(t, src, path, parent, i, 0)
        } else if k == "trait_item"@ {
            match rust_type_def(t, src, path, SymbolKind::Trait, i) {
                Some(s) => seq![s] + match field_child(t, i, "body"@) {
                    Some(b) => if i < b < t.len() { rust_children(t, src, path, Some(s.name), b, 0) } else { Seq::empty() },
                    None => Seq::empty(),
                },
                None => rust_children(t, src, path, parent, i, 0),
            }
        } else if k == "impl_item"@ {
            let impl_name = match field_child(t, i, "type"@) {
                Some(ty) => text_of(t, src, ty),
                None => "impl"@,
            };
            match field_child(t, i, "body"@) {
                Some(b) => if i < b < t.len() { rust_children(t, src, path, Some(impl_name), b, 0) } else { Seq::empty() },
                None => Seq::empty(),
            }
        } else if k == "const_item"@ || k == "static_item"@ {
            opt_seq(rust_const(t, src, path, parent, i)) + rust_children(t, src, path, parent, i, 0)
        } else if k == "type_item"@ {
            opt_seq(rust_type_def(t, src, path, SymbolKind::TypeAlias, i)) + rust_children(t, src, path, parent, i, 0)
        } else {
            rust_children(t, src, path, parent, i, 0)
        }
    }
}

/// The symbols of the children of `i` from position `k` on.
pub open spec fn rust_children(t: TreeView, src: Seq<u8>, path: Seq<char>, parent: Option<Seq<char>>, i: int, k: int) -> Seq<SymbolView>
    decreases t.len() - i, t[i].children.len() - k,
{
    if i < 0 || i >= t.len() || k < 0 || k >= t[i].children.len() {
        Seq::empty()
    } else {
        let c = t[i].children[k] as int;
        (if i < c < t.len() { rust_node(t, src, path, parent, c) } else { Seq::empty() }) + rust_children(t, src, path, parent, i, k + 1)
    }
}

fn rust_visibility(t: &SyntaxTree, src: &[u8], i: usize) -> (r: Visibility)
    requires
        tree_fits(t@, src@.len()),
        i < t@.len(),
    ensures
        r == rust_visibility_from(t@, src@, i as int, 0),
{
    let ghost tv = t@;
    let n = &t.nodes[i];
    assert(tv[i as int] == n@);
    let mut k: usize = 0;
    while k < n.children.len()
        invariant
            k <= n.children@.len(),
            tv == t@,
            tree_fits(tv, src@.len()),
            i < tv.len(),
            tv[i as int] == n@,
            rust_visibility_from(tv, src@, i as int, k as int) == rust_visibility_from(tv, src@, i as int, 0),
        decreases n.children.len() - k,
    {
        let c = n.children[k];
        assert(i < tv[i as int].children[k as int] < tv.len());
        if kind_is(t, c, "visibility_modifier") {
            let text = node_text(t, src, c);
            let tc = chars_of(text.as_str());
            let crate_word = chars_of("crate");
            return if contains_chars(tc.as_slice(), crate_word.as_slice()) {
                Visibility::Crate
            } else {
                Visibility::Public
            };
        }
        k = k + 1;
    }
    Visibility::Private
}

fn opt_node_text(t: &SyntaxTree, src: &[u8], c: Option<usize>) -> (r: Option<String>)
    requires
        tree_fits(t@, src@.len()),
        c matches Some(x) ==> x < t@.len(),
    ensures
        opt_view(r) == opt_text(t@, src@, match c { Some(x) => Some(x as int), None => None }),
{
    match c {
        Some(x) => Some(node_text(t, src, x)),
        None => None,
    }
}

fn rust_parameters(t: &SyntaxTree, src: &[u8], i: usize) -> (r: Vec<Parameter>)
    requires
        tree_fits(t@, src@.len()),
        i < t@.len(),
    ensures
        params_view(r@) == rust_params(t@, src@, i as int),
{
    let ghost tv = t@;
    let mut out: Vec<Parameter> = Vec::new();
    match child_by_field(t, i, "parameters") {
        None => {
            proof {
                assert(params_view(out@) =~= Seq::<ParameterView>::empty());
            }
            out
        },
        Some(p) => {
            let pn = &t.nodes[p];
            assert(tv[p as int] == pn@);
            let mut k: usize = 0;
            proof {
                assert(params_view(out@) + rust_params_from(tv, src@, p as int, 0) =~= rust_params_from(tv, src@, p as int, 0));
            }
            while k < pn.children.len()
                invariant
                    k <= pn.children@.len(),
                    tv == t@,
                    tree_fits(tv, src@.len()),
                    p < tv.len(),
                    tv[p as int] == pn@,
                    params_view(out@) + rust_params_from(tv, src@, p as int, k as int) == rust_params_from(tv, src@, p as int, 0),
                decreases pn.children.len() - k,
            {
                let c = pn.children[k];
                assert(p < tv[p as int].children[k as int] < tv.len());
                let ghost before = params_view(out@);
                if kind_is(t, c, "parameter") {
                    let pat = child_by_field(t, c, "pattern");
                    let name = match pat {
                        Some(x) => node_text(t, src, x),
                        None => String::new(),
                    };
                    let ty = child_by_field(t, c, "type");
                    let type_annotation = opt_node_text(t, src, ty);
                    let param = Parameter { name, type_annotation };
                    out.push(param);
                    proof {
                        assert(params_view(out@) =~= before.push(param@));
                    }
                } else if kind_is(t, c, "self_parameter") {
                    let param = Parameter { name: node_text(t, src, c), type_annotation: None };
                    out.push(param);
                    proof {
                        assert(params_view(out@) =~= before.push(param@));
                    }
                }
                k = k + 1;
            }
            proof {
                assert(params_view(out@) =~= rust_params_from(tv, src@, p as int, 0));
            }
            out
        },
    }
}

fn qualified(parent: &Option<String>, name: &String) -> (r: String)
    ensures
        r@ == qualify(opt_view(*parent), name@),
{
    match parent {
        Some(p) => {
            let mut s = p.clone();
            push_str(&mut s, "::");
            push_str(&mut s, name.as_str());
            s
        },
        None => name.clone(),
    }
}

fn extract_rust_function(t: &SyntaxTree, src: &[u8], path: &str, parent: &Option<String>, i: usize) -> (r: Option<Symbol>)
    requires
        tree_fits(t@, src@.len()),
        i < t@.len(),
    ensures
        match r {
            Some(s) => rust_function(t@, src@, path@, opt_view(*parent), i as int) == Some(s@),
            None => rust_function(t@, src@, path@, opt_view(*parent), i as int) is None,
        },
{
    let nn = match child_by_field(t, i, "name") {
        Some(x) => x,
        None => {
            return None;
        },
    };
    let name = node_text(t, src, nn);
    let visibility = rust_visibility(t, src, i);
    let parameters = rust_parameters(t, src, i);
    let rt = child_by_field(t, i, "return_type");
    let return_type = opt_node_text(t, src, rt);
    let body_text = node_text(t, src, i);
    let signature = build_signature(name.as_str(), &parameters, &return_type);
    let qualified_name = qualified(parent, &name);
    let kind = if parent.is_some() {
        SymbolKind::Method
    } else {
        SymbolKind::Function
    };
    let lines = node_lines(t, i);
    let parent_copy = match parent {
        Some(p) => Some(p.clone()),
        None => None,
    };
    Some(make_symbol(kind, name, qualified_name, path, lines, signature, body_text, parent_copy, visibility, parameters, return_type))
}

fn extract_rust_type_def(t: &SyntaxTree, src: &[u8], path: &str, kind: SymbolKind, i: usize) -> (r: Option<Symbol>)
    requires
        tree_fits(t@, src@.len()),
        i < t@.len(),
    ensures
        match r {
            Some(s) => rust_type_def(t@, src@, path@, kind, i as int) == Some(s@),
            None => rust_type_def(t@, src@, path@, kind, i as int) is None,
        },
{
    let nn = match child_by_field(t, i, "name") {
        Some(x) => x,
        None => {
            return None;
        },
    };
    let name = node_text(t, src, nn);
    let visibility = rust_visibility(t, src, i);
    let body_text = node_text(t, src, i);
    let lines = node_lines(t, i);
    let r = make_symbol(kind, name.clone(), name, path, lines, String::new(), body_text, None, visibility, Vec::new(), None);
    proof {
        assert(params_view(Seq::<Parameter>::empty()) =~= Seq::<ParameterView>::empty());
    }
    Some(r)
}

fn extract_rust_const(t: &SyntaxTree, src: &[u8], path: &str, parent: &Option<String>, i: usize) -> (r: Option<Symbol>)
    requires
        tree_fits(t@, src@.len()),
        i < t@.len(),
    ensures
        match r {
            Some(s) => rust_const(t@, src@, path@, opt_view(*parent), i as int) == Some(s@),
            None => rust_const(t@, src@, path@, opt_view(*parent), i as int) is None,
        },
{
    let nn = match child_by_field(t, i, "name") {
        Some(x) => x,
        None => {
            return None;
        },
    };
    let name = node_text(t, src, nn);
    let visibility = rust_visibility(t, src, i);
    let body_text = node_text(t, src, i);
    let lines = node_lines(t, i);
    let qualified_name = qualified(parent, &name);
    let parent_copy = match parent {
        Some(p) => Some(p.clone()),
        None => None,
    };
    let r = make_symbol(SymbolKind::Constant, name, qualified_name, path, lines, String::new(), body_text, parent_copy, visibility, Vec::new(), None);
    proof {
        assert(params_view(Seq::<Parameter>::empty()) =~= Seq::<ParameterView>::empty());
    }
    Some(r)
}

fn push_opt(out: &mut Vec<Symbol>, s: Option<Symbol>)
    ensures
        syms_view(final(out)@) == syms_view(old(out)@) + opt_seq(match s { Some(x) => Some(x@), None => None }),
{
    let ghost before = syms_view(out@);
    match s {
        Some(x) => {
            let ghost xv = x@;
            out.push(x);
            proof {
                assert(syms_view(out@) =~= before + seq![xv]);
            }
        },
        None => {
            proof {
                assert(syms_view(out@) =~= before + Seq::<SymbolView>::empty());
            }
        },
    }
}

fn rust_children_of(t: &SyntaxTree, src: &[u8], path: &str, parent: &Option<String>, i: usize, out: &mut Vec<Symbol>)
    requires
        tree_fits(t@, src@.len()),
        i < t@.len(),
    ensures
        syms_view(final(out)@) == syms_view(old(out)@) + rust_children(t@, src@, path@, opt_view(*parent), i as int, 0),
    decreases t@.len() - i, 0nat,
{
    let ghost tv = t@;
    let ghost base = syms_view(out@);
    let n = &t.nodes[i];
    assert(tv[i as int] == n@);
    let mut k: usize = 0;
    proof {
        assert(base + rust_children(tv, src@, path@, opt_view(*parent), i as int, 0) =~= syms_view(out@) + rust_children(tv, src@, path@, opt_view(*parent), i as int, 0));
    }
    while k < n.children.len()
        invariant
            k <= n.children@.len(),
            tv == t@,
            tree_fits(tv, src@.len()),
            i < tv.len(),
            tv[i as int] == n@,
            base + rust_children(tv, src@, path@, opt_view(*parent), i as int, 0) == syms_view(out@) + rust_children(tv, src@, path@, opt_view(*parent), i as int, k as int),
        decreases n.children.len() - k,
    {
        let c = n.children[k];
        assert(i < tv[i as int].children[k as int] < tv.len());
        let ghost mid = syms_view(out@);
        extract_rust_node(t, src, path, parent, c, out);
        proof {
            let rest = rust_children(tv, src@, path@, opt_view(*parent), i as int, k + 1);
            assert(rust_children(tv, src@, path@, opt_view(*parent), i as int, k as int) == rust_node(tv, src@, path@, opt_view(*parent), c as int) + rest);
            assert(mid + (rust_node(tv, src@, path@, opt_view(*parent), c as int) + rest) =~= syms_view(out@) + rest);
        }
        k = k + 1;
    }
    proof {
        assert(syms_view(out@) + rust_children(tv, src@, path@, opt_view(*parent), i as int, k as int) =~= syms_view(out@));
    }
}

/// Adds the symbols of the subtree at `i` of a Rust file.
fn extract_rust_node(t: &SyntaxTree, src: &[u8], path: &str, parent: &Option<String>, i: usize, out: &mut Vec<Symbol>)
    requires
        tree_fits(t@, src@.len()),
        i < t@.len(),
    ensures
        syms_view(final(out)@) == syms_view(old(out)@) + rust_node(t@, src@, path@, opt_view(*parent), i as int),
    decreases t@.len() - i, 1nat,
{
    let ghost tv = t@;
    let ghost pv = opt_view(*parent);
    let ghost base = syms_view(out@);
    if kind_is(t, i, "function_item") || kind_is(t, i, "function_signature_item") {
        let s = extract_rust_function(t, src, path, parent, i);
        push_opt(out, s);
        rust_children_of(t, src, path, parent, i, out);
        proof { assert(syms_view(out@) =~= base + rust_node(tv, src@, path@, pv, i as int)); }
    } else if kind_is(t, i, "struct_item") {
        match extract_rust_type_def(t, src, path, SymbolKind::Struct, i) {
            Some(s) => {
                let name = Some(s.name.clone());
                let ghost sv = s@;
                push_opt(out, Some(s));
                rust_children_of(t, src, path, &name, i, out);
                proof { assert(syms_view(out@) =~= base + rust_node(tv, src@, path@, pv, i as int)); }
            },
            None => {
                rust_children_of(t, src, path, parent, i, out);
            },
        }
    } else if kind_is(t, i, "enum_item") {
        let s = extract_rust_type_def(t, src, path, SymbolKind::Enum, i);
        push_opt(out, s);
        rust_children_of(t, src, path, parent, i, out);
        proof { assert(syms_view(out@) =~= base + rust_node(tv, src@, path@, pv, i as int)); }
    } else if kind_is(t, i, "trait_item") {
        match extract_rust_type_def(t, src, path, SymbolKind::Trait, i) {
            Some(s) => {
                let name = Some(s.name.clone());
                push_opt(out, Some(s));
                let ghost mid = syms_view(out@);
                match child_by_field(t, i, "body") {
                    Some(b) => {
                        rust_children_of(t, src, path, &name, b, out);
                    },
                    None => {},
                }
                proof { assert(syms_view(out@) =~= base + rust_node(tv, src@, path@, pv, i as int)); }
            },
            None => {
                rust_children_of(t, src, path, parent, i, out);
            },
        }
    } else if kind_is(t, i, "impl_item") {
        let impl_name = match child_by_field(t, i, "type") {
            Some(ty) => node_text(t, src, ty),
            None => String::from_str("impl"),
        };
        let np = Some(impl_name);
        match child_by_field(t, i, "body") {
            Some(b) => {
                rust_children_of(t, src, path, &np, b, out);
            },
            None => {},
        }
        proof { assert(syms_view(out@) =~= base + rust_node(tv, src@, path@, pv, i as int)); }
    } else if kind_is(t, i, "const_item") || kind_is(t, i, "static_item") {
        let s = extract_rust_const(t, src, path, parent, i);
        push_opt(out, s);
        rust_children_of(t, src, path, parent, i, out);
        proof { assert(syms_view(out@) =~= base + rust_node(tv, src@, path@, pv, i as int)); }
    } else if kind_is(t, i, "type_item") {
        let s = extract_rust_type_def(t, src, path, SymbolKind::TypeAlias, i);
        push_opt(out, s);
        rust_children_of(t, src, path, parent, i, out);
        proof { assert(syms_view(out@) =~= base + rust_node(tv, src@, path@, pv, i as int)); }
    } else {
        rust_children_of(t, src, path, parent, i, out);
    }
}

// --------------------------------------------------------------------- Go

/// Go exports names that start with an upper-case letter.
pub open spec fn go_visibility(name: Seq<char>) -> Visibility {
    if name.len() > 0 && uppercase_char(name[0]) {
        Visibility::Public
    } else {
        Visibility::Private
    }
}

pub open spec fn go_params_from(t: TreeView, src: Seq<u8>, p: int, k: int) -> Seq<ParameterView>
    decreases t[p].children.len() - k,
{
    if k < 0 || k >= t[p].children.len() {
        Seq::empty()
    } else {
        let c = t[p].children[k] as int;
        let rest = go_params_from(t, src, p, k + 1);
        if t[c].kind == "parameter_declaration"@ {
            seq![ParameterView {
                name: match field_child(t, c, "name"@) {
                    Some(n) => text_of(t, src, n),
                    None => Seq::empty(),
                },
                type_annotation: opt_text(t, src, field_child(t, c, "type"@)),
            }] + rest
        } else {
            rest
        }
    }
}

pub open spec fn go_params(t: TreeView, src: Seq<u8>, i: int) -> Seq<ParameterView> {
    match field_child(t, i, "parameters"@) {
        Some(p) => go_params_from(t, src, p, 0),
        None => Seq::empty(),
    }
}

/// The receiver of a Go method as the text of its first parameter
/// declaration (its type when it has one).
pub open spec fn go_receiver_text_from(t: TreeView, src: Seq<u8>, r: int, k: int) -> Option<Seq<char>>
    decreases t[r].children.len() - k,
{
    if k < 0 || k >= t[r].children.len() {
        None
    } else {
        let c = t[r].children[k] as int;
        if t[c].kind == "parameter_declaration"@ {
            match field_child(t, c, "type"@) {
                Some(ty) => Some(text_of(t, src, ty)),
                None => Some(text_of(t, src, c)),
            }
        } else {
            go_receiver_text_from(t, src, r, k + 1)
        }
    }
}

pub open spec fn go_receiver_name(t: TreeView, src: Seq<u8>, i: int) -> Seq<char> {
    match field_child(t, i, "receiver"@) {
        Some(r) => match go_receiver_text_from(t, src, r, 0) {
            Some(x) => trim_stars(x),
            None => "?"@,
        },
        None => "?"@,
    }
}

/// A Go function or method.
pub open spec fn go_function(t: TreeView, src: Seq<u8>, path: Seq<char>, i: int, method: bool) -> Option<SymbolView> {
    match field_child(t, i, "name"@) {
        None => None,
        Some(nn) => {
            let name = text_of(t, src, nn);
            let params = go_params(t, src, i);
            let ret = opt_text(t, src, field_child(t, i, "result"@));
            let recv = go_receiver_name(t, src, i);
            Some(symbol_spec(
                if method { SymbolKind::Method } else { SymbolKind::Function },
                name,
                if method { recv + "::"@ + name } else { name },
                path,
                lines_of(t, i),
                signature_text(name, params, ret),
                text_of(t, src, i),
                if method { Some(recv) } else { None },
                go_visibility(name),
                params,
                ret,
            ))
        },
    }
}

/// A Go type: a struct, an interface, or another type.
pub open spec fn go_type_spec(t: TreeView, src: Seq<u8>, path: Seq<char>, i: int) -> Option<SymbolView> {
    match field_child(t, i, "name"@) {
        None => None,
        Some(nn) => {
            let name = text_of(t, src, nn);
            let kind = match field_child(t, i, "type"@) {
                Some(ty) => if t[ty].kind == "struct_type"@ {
                    SymbolKind::Struct
                } else if t[ty].kind == "interface_type"@ {
                    SymbolKind::Interface
                } else {
                    SymbolKind::TypeAlias
                },
                None => SymbolKind::TypeAlias,
            };
            Some(symbol_spec(kind, name, name, path, lines_of(t, i), Seq::empty(), text_of(t, src, i), None,
                go_visibility(name), Seq::empty(), None))
        },
    }
}

/// A Go constant or variable of a declaration.
pub open spec fn go_value_spec(t: TreeView, src: Seq<u8>, path: Seq<char>, c: int) -> Option<SymbolView> {
    match field_child(t, c, "name"@) {
        None => None,
        Some(nn) => {
            let name = text_of(t, src, nn);
            Some(symbol_spec(SymbolKind::Constant, name, name, path, lines_of(t, c), Seq::empty(), text_of(t, src, c),
                None, Visibility::Unknown, Seq::empty(), None))
        },
    }
}

/// The symbols a Go declaration node declares itself, child by child from `k`.
pub open spec fn go_specs_from(t: TreeView, src: Seq<u8>, path: Seq<char>, i: int, types: bool, k: int) -> Seq<SymbolView>
    decreases t[i].children.len() - k,
{
    if k < 0 || k >= t[i].children.len() {
        Seq::empty()
    } else {
        let c = t[i].children[k] as int;
        (if types {
            if t[c].kind == "type_spec"@ { opt_seq(go_type_spec(t, src, path, c)) } else { Seq::empty() }
        } else {
            if t[c].kind == "const_spec"@ || t[c].kind == "var_spec"@ { opt_seq(go_value_spec(t, src, path, c)) } else { Seq::empty() }
        }) + go_specs_from(t, src, path, i, types, k + 1)
    }
}

pub open spec fn go_node(t: TreeView, src: Seq<u8>, path: Seq<char>, i: int) -> Seq<SymbolView>
    decreases t.len() - i, t[i].children.len() + 1,
{
    if i < 0 || i >= t.len() {
        Seq::empty()
    } else {
        let k = t[i].kind;
        (if k == "function_declaration"@ {
            opt_seq(go_function(t, src, path, i, false))
        } else if k == "method_declaration"@ {
            opt_seq(go_function(t, src, path, i, true))
        } else if k == "type_declaration"@ {
            go_specs_from(t, src, path, i, true, 0)
        } else if k == "const_declaration"@ || k == "var_declaration"@ {
            go_specs_from(t, src, path, i, false, 0)
        } else {
            Seq::empty()
        }) + go_children(t, src, path, i, 0)
    }
}

pub open spec fn go_children(t: TreeView, src: Seq<u8>, path: Seq<char>, i: int, k: int) -> Seq<SymbolView>
    decreases t.len() - i, t[i].children.len() - k,
{
    if i < 0 || i >= t.len() || k < 0 || k >= t[i].children.len() {
        Seq::empty()
    } else {
        let c = t[i].children[k] as int;
        (if i < c < t.len() { go_node(t, src, path, c) } else { Seq::empty() }) + go_children(t, src, path, i, k + 1)
    }
}

fn go_parameters(t: &SyntaxTree, src: &[u8], i: usize) -> (r: Vec<Parameter>)
    requires
        tree_fits(t@, src@.len()),
        i < t@.len(),
    ensures
        params_view(r@) == go_params(t@, src@, i as int),
{
    let ghost tv = t@;
    let mut out: Vec<Parameter> = Vec::new();
    match child_by_field(t, i, "parameters") {
        None => {
            proof {
                assert(params_view(out@) =~= Seq::<ParameterView>::empty());
            }
            out
        },
        Some(p) => {
            let pn = &t.nodes[p];
            assert(tv[p as int] == pn@);
            let mut k: usize = 0;
            proof {
                assert(params_view(out@) + go_params_from(tv, src@, p as int, 0) =~= go_params_from(tv, src@, p as int, 0));
            }
            while k < pn.children.len()
                invariant
                    k <= pn.children@.len(),
                    tv == t@,
                    tree_fits(tv, src@.len()),
                    p < tv.len(),
                    tv[p as int] == pn@,
                    params_view(out@) + go_params_from(tv, src@, p as int, k as int) == go_params_from(tv, src@, p as int, 0),
                decreases pn.children.len() - k,
            {
                let c = pn.children[k];
                assert(p < tv[p as int].children[k as int] < tv.len());
                let ghost before = params_view(out@);
                if kind_is(t, c, "parameter_declaration") {
                    let nm = child_by_field(t, c, "name");
                    let name = match nm {
                        Some(x) => node_text(t, src, x),
                        None => String::new(),
                    };
                    let ty = child_by_field(t, c, "type");
                    let type_annotation = opt_node_text(t, src, ty);
                    let param = Parameter { name, type_annotation };
                    out.push(param);
                    proof {
                        assert(params_view(out@) =~= before.push(param@));
                    }
                }
                k = k + 1;
            }
            proof {
                assert(params_view(out@) =~= go_params_from(tv, src@, p as int, 0));
            }
            out
        },
    }
}

fn go_receiver_name_of(t: &SyntaxTree, src: &[u8], i: usize) -> (r: String)
    requires
        tree_fits(t@, src@.len()),
        i < t@.len(),
    ensures
        r@ == go_receiver_name(t@, src@, i as int),
{
    let ghost tv = t@;
    match child_by_field(t, i, "receiver") {
        None => String::from_str("?"),
        Some(r) => {
            let rn = &t.nodes[r];
            assert(tv[r as int] == rn@);
            let mut k: usize = 0;
            while k < rn.children.len()
                invariant
                    k <= rn.children@.len(),
                    tv == t@,
                    tree_fits(tv, src@.len()),
                    r < tv.len(),
                    i < tv.len(),
                    tv[r as int] == rn@,
                    field_child(tv, i as int, "receiver"@) == Some(r as int),
                    go_receiver_text_from(tv, src@, r as int, k as int) == go_receiver_text_from(tv, src@, r as int, 0),
                decreases rn.children.len() - k,
            {
                let c = rn.children[k];
                assert(r < tv[r as int].children[k as int] < tv.len());
                if kind_is(t, c, "parameter_declaration") {
                    let text = match child_by_field(t, c, "type") {
                        Some(ty) => node_text(t, src, ty),
                        None => node_text(t, src, c),
                    };
                    return trim_leading_stars(&text);
                }
                k = k + 1;
            }
            String::from_str("?")
        },
    }
}

fn go_visibility_of(name: &String) -> (r: Visibility)
    ensures
        r == go_visibility(name@),
{
    let c = chars_of(name.as_str());
    if c.len() > 0 && is_uppercase(c[0]) {
        Visibility::Public
    } else {
        Visibility::Private
    }
}

fn extract_go_function(t: &SyntaxTree, src: &[u8], path: &str, i: usize, method: bool) -> (r: Option<Symbol>)
    requires
        tree_fits(t@, src@.len()),
        i < t@.len(),
    ensures
        match r {
            Some(s) => go_function(t@, src@, path@, i as int, method) == Some(s@),
            None => go_function(t@, src@, path@, i as int, method) is None,
        },
{
    let nn = match child_by_field(t, i, "name") {
        Some(x) => x,
        None => {
            return None;
        },
    };
    let name = node_text(t, src, nn);
    let parameters = go_parameters(t, src, i);
    let rt = child_by_field(t, i, "result");
    let return_type = opt_node_text(t, src, rt);
    let body_text = node_text(t, src, i);
    let signature = build_signature(name.as_str(), &parameters, &return_type);
    let visibility = go_visibility_of(&name);
    let recv = go_receiver_name_of(t, src, i);
    let lines = node_lines(t, i);
    if method {
        let mut q = recv.clone();
        push_str(&mut q, "::");
        push_str(&mut q, name.as_str());
        Some(make_symbol(SymbolKind::Method, name, q, path, lines, signature, body_text, Some(recv), visibility, parameters, return_type))
    } else {
        let q = name.clone();
        Some(make_symbol(SymbolKind::Function, name, q, path, lines, signature, body_text, None, visibility, parameters, return_type))
    }
}

fn extract_go_type_spec(t: &SyntaxTree, src: &[u8], path: &str, i: usize) -> (r: Option<Symbol>)
    requires
        tree_fits(t@, src@.len()),
        i < t@.len(),
    ensures
        match r {
            Some(s) => go_type_spec(t@, src@, path@, i as int) == Some(s@),
            None => go_type_spec(t@, src@, path@, i as int) is None,
        },
{
    let nn = match child_by_field(t, i, "name") {
        Some(x) => x,
        None => {
            return None;
        },
    };
    let name = node_text(t, src, nn);
    let kind = match child_by_field(t, i, "type") {
        Some(ty) => if kind_is(t, ty, "struct_type") {
            SymbolKind::Struct
        } else if kind_is(t, ty, "interface_type") {
            SymbolKind::Interface
        } else {
            SymbolKind::TypeAlias
        },
        None => SymbolKind::TypeAlias,
    };
    let body_text = node_text(t, src, i);
    let visibility = go_visibility_of(&name);
    let lines = node_lines(t, i);
    let r = make_symbol(kind, name.clone(), name, path, lines, String::new(), body_text, None, visibility, Vec::new(), None);
    proof {
        assert(params_view(Seq::<Parameter>::empty()) =~= Seq::<ParameterView>::empty());
    }
    Some(r)
}

fn extract_go_value_spec(t: &SyntaxTree, src: &[u8], path: &str, c: usize) -> (r: Option<Symbol>)
    requires
        tree_fits(t@, src@.len()),
        c < t@.len(),
    ensures
        match r {
            Some(s) => go_value_spec(t@, src@, path@, c as int) == Some(s@),
            None => go_value_spec(t@, src@, path@, c as int) is None,
        },
{
    let nn = match child_by_field(t, c, "name") {
        Some(x) => x,
        None => {
            return None;
        },
    };
    let name = node_text(t, src, nn);
    let body_text = node_text(t, src, c);
    let lines = node_lines(t, c);
    let r = make_symbol(SymbolKind::Constant, name.clone(), name, path, lines, String::new(), body_text, None, Visibility::Unknown, Vec::new(), None);
    proof {
        assert(params_view(Seq::<Parameter>::empty()) =~= Seq::<ParameterView>::empty());
    }
    Some(r)
}

fn go_specs(t: &SyntaxTree, src: &[u8], path: &str, i: usize, types: bool, out: &mut Vec<Symbol>)
    requires
        tree_fits(t@, src@.len()),
        i < t@.len(),
    ensures
        syms_view(final(out)@) == syms_view(old(out)@) + go_specs_from(t@, src@, path@, i as int, types, 0),
{
    let ghost tv = t@;
    let ghost base = syms_view(out@);
    let n = &t.nodes[i];
    assert(tv[i as int] == n@);
    let mut k: usize = 0;
    proof {
        assert(base + go_specs_from(tv, src@, path@, i as int, types, 0) =~= syms_view(out@) + go_specs_from(tv, src@, path@, i as int, types, 0));
    }
    while k < n.children.len()
        invariant
            k <= n.children@.len(),
            tv == t@,
            tree_fits(tv, src@.len()),
            i < tv.len(),
            tv[i as int] == n@,
            base + go_specs_from(tv, src@, path@, i as int, types, 0) == syms_view(out@) + go_specs_from(tv, src@, path@, i as int, types, k as int),
        decreases n.children.len() - k,
    {
        let c = n.children[k];
        assert(i < tv[i as int].children[k as int] < tv.len());
        let ghost mid = syms_view(out@);
        let ghost part = if types {
            if tv[c as int].kind == "type_spec"@ { opt_seq(go_type_spec(tv, src@, path@, c as int)) } else { Seq::empty() }
        } else {
            if tv[c as int].kind == "const_spec"@ || tv[c as int].kind == "var_spec"@ { opt_seq(go_value_spec(tv, src@, path@, c as int)) } else { Seq::empty() }
        };
        if types {
            if kind_is(t, c, "type_spec") {
                let s = extract_go_type_spec(t, src, path, c);
                push_opt(out, s);
            } else {
                proof { assert(syms_view(out@) + Seq::<SymbolView>::empty() =~= syms_view(out@)); }
            }
        } else {
            if kind_is(t, c, "const_spec") || kind_is(t, c, "var_spec") {
                let s = extract_go_value_spec(t, src, path, c);
                push_opt(out, s);
            } else {
                proof { assert(syms_view(out@) + Seq::<SymbolView>::empty() =~= syms_view(out@)); }
            }
        }
        proof {
            let rest = go_specs_from(tv, src@, path@, i as int, types, k + 1);
            assert(syms_view(out@) == mid + part);
            assert(mid + (part + rest) =~= syms_view(out@) + rest);
        }
        k = k + 1;
    }
    proof {
        assert(syms_view(out@) + go_specs_from(tv, src@, path@, i as int, types, k as int) =~= syms_view(out@));
    }
}

fn go_children_of(t: &SyntaxTree, src: &[u8], path: &str, i: usize, out: &mut Vec<Symbol>)
    requires
        tree_fits(t@, src@.len()),
        i < t@.len(),
    ensures
        syms_view(final(out)@) == syms_view(old(out)@) + go_children(t@, src@, path@, i as int, 0),
    decreases t@.len() - i, 0nat,
{
    let ghost tv = t@;
    let ghost base = syms_view(out@);
    let n = &t.nodes[i];
    assert(tv[i as int] == n@);
    let mut k: usize = 0;
    while k < n.children.len()
        invariant
            k <= n.children@.len(),
            tv == t@,
            tree_fits(tv, src@.len()),
            i < tv.len(),
            tv[i as int] == n@,
            base + go_children(tv, src@, path@, i as int, 0) == syms_view(out@) + go_children(tv, src@, path@, i as int, k as int),
        decreases n.children.len() - k,
    {
        let c = n.children[k];
        assert(i < tv[i as int].children[k as int] < tv.len());
        let ghost mid = syms_view(out@);
        extract_go_node(t, src, path, c, out);
        proof {
            let rest = go_children(tv, src@, path@, i as int, k + 1);
            assert(go_children(tv, src@, path@, i as int, k as int) == go_node(tv, src@, path@, c as int) + rest);
            assert(mid + (go_node(tv, src@, path@, c as int) + rest) =~= syms_view(out@) + rest);
        }
        k = k + 1;
    }
    proof {
        assert(syms_view(out@) + go_children(tv, src@, path@, i as int, k as int) =~= syms_view(out@));
    }
}

/// Adds the symbols of the subtree at `i` of a Go file.
fn extract_go_node(t: &SyntaxTree, src: &[u8], path: &str, i: usize, out: &mut Vec<Symbol>)
    requires
        tree_fits(t@, src@.len()),
        i < t@.len(),
    ensures
        syms_view(final(out)@) == syms_view(old(out)@) + go_node(t@, src@, path@, i as int),
    decreases t@.len() - i, 1nat,
{
    let ghost tv = t@;
    let ghost base = syms_view(out@);
    if kind_is(t, i, "function_declaration") {
        let s = extract_go_function(t, src, path, i, false);
        push_opt(out, s);
    } else if kind_is(t, i, "method_declaration") {
        let s = extract_go_function(t, src, path, i, true);
        push_opt(out, s);
    } else if kind_is(t, i, "type_declaration") {
        go_specs(t, src, path, i, true, out);
    } else if kind_is(t, i, "const_declaration") || kind_is(t, i, "var_declaration") {
        go_specs(t, src, path, i, false, out);
    } else {
        proof { assert(syms_view(out@) + Seq::<SymbolView>::empty() =~= syms_view(out@)); }
    }
    let ghost mid = syms_view(out@);
    go_children_of(t, src, path, i, out);
    proof {
        assert(syms_view(out@) =~= base + go_node(tv, src@, path@, i as int));
    }
}


// ----------------------------------------------------------------- Python

pub open spec fn qualify_dot(parent: Option<Seq<char>>, name: Seq<char>) -> Seq<char> {
    match parent {
        Some(p) => p + "."@ + name,
        None => name,
    }
}

/// Python hides names that start with `_`.
pub open spec fn py_visibility(name: Seq<char>) -> Visibility {
    if name.len() > 0 && name[0] == '_' {
        Visibility::Private
    } else {
        Visibility::Public
    }
}

/// The name of a typed or default parameter: its `name` field, else its
/// first child.
pub open spec fn py_param_name(t: TreeView, src: Seq<u8>, c: int) -> Seq<char> {
    match field_child(t, c, "name"@) {
        Some(n) => text_of(t, src, n),
        None => if t[c].children.len() > 0 { text_of(t, src, t[c].children[0] as int) } else { Seq::empty() },
    }
}

pub open spec fn is_self_or_cls(name: Seq<char>) -> bool {
    name == "self"@ || name == "cls"@
}

pub open spec fn py_params_from(t: TreeView, src: Seq<u8>, p: int, k: int) -> Seq<ParameterView>
    decreases t[p].children.len() - k,
{
    if k < 0 || k >= t[p].children.len() {
        Seq::empty()
    } else {
        let c = t[p].children[k] as int;
        let rest = py_params_from(t, src, p, k + 1);
        let kd = t[c].kind;
        if kd == "identifier"@ {
            let name = text_of(t, src, c);
            if is_self_or_cls(name) {
                rest
            } else {
                seq![ParameterView { name, type_annotation: None }] + rest
            }
        } else if kd == "typed_parameter"@ || kd == "default_parameter"@ || kd == "typed_default_parameter"@ {
            let name = py_param_name(t, src, c);
            if is_self_or_cls(name) {
                rest
            } else {
                seq![ParameterView { name, type_annotation: opt_text(t, src, field_child(t, c, "type"@)) }] + rest
            }
        } else {
            rest
        }
    }
}

/// The parameters of a Python function, `self` and `cls` left out.
pub open spec fn py_params(t: TreeView, src: Seq<u8>, i: int) -> Seq<ParameterView> {
    match field_child(t, i, "parameters"@) {
        Some(p) => py_params_from(t, src, p, 0),
        None => Seq::empty(),
    }
}

/// A Python function (a method inside a class).
pub open spec fn py_function(t: TreeView, src: Seq<u8>, path: Seq<char>, parent: Option<Seq<char>>, i: int) -> Option<SymbolView> {
    match field_child(t, i, "name"@) {
        None => None,
        Some(nn) => {
            let name = text_of(t, src, nn);
            let params = py_params(t, src, i);
            let ret = opt_text(t, src, field_child(t, i, "return_type"@));
            Some(symbol_spec(
                if parent is Some { SymbolKind::Method } else { SymbolKind::Function },
                name,
                qualify_dot(parent, name),
                path,
                lines_of(t, i),
                signature_text(name, params, ret),
                text_of(t, src, i),
                parent,
                py_visibility(name),
                params,
                ret,
            ))
        },
    }
}

/// A Python class.
pub open spec fn py_class(t: TreeView, src: Seq<u8>, path: Seq<char>, i: int) -> Option<SymbolView> {
    match field_child(t, i, "name"@) {
        None => None,
        Some(nn) => {
            let name = text_of(t, src, nn);
            Some(symbol_spec(SymbolKind::Class, name, name, path, lines_of(t, i), Seq::empty(), text_of(t, src, i), None,
                Visibility::Public, Seq::empty(), None))
        },
    }
}

pub open spec fn py_is_def(k: Seq<char>) -> bool {
    k == "function_definition"@ || k == "class_definition"@
}

/// The symbols of the subtree at `i` of a Python file; functions are not
/// entered, classes give their methods.
pub open spec fn py_node(t: TreeView, src: Seq<u8>, path: Seq<char>, parent: Option<Seq<char>>, i: int) -> Seq<SymbolView>
    decreases t.len() - i, t[i].children.len() + 1,
{
    if i < 0 || i >= t.len() {
        Seq::empty()
    } else {
        let k = t[i].kind;
        if k == "function_definition"@ {
            opt_seq(py_function(t, src, path, parent, i))
        } else if k == "class_definition"@ {
            match py_class(t, src, path, i) {
                Some(s) => seq![s] + match field_child(t, i, "body"@) {
                    Some(b) => if i < b < t.len() { py_children(t, src, path, Some(s.name), b, false, 0) } else { Seq::empty() },
                    None => Seq::empty(),
                },
                None => py_children(t, src, path, parent, i, false, 0),
            }
        } else if k == "decorated_definition"@ {
            py_children(t, src, path, parent, i, true, 0)
        } else {
            py_children(t, src, path, parent, i, false, 0)
        }
    }
}

/// The symbols of the children of `i` from position `k` on; with
/// `defs_only`, of the function and class definitions among them alone.
pub open spec fn py_children(t: TreeView, src: Seq<u8>, path: Seq<char>, parent: Option<Seq<char>>, i: int, defs_only: bool, k: int) -> Seq<SymbolView>
    decreases t.len() - i, t[i].children.len() - k,
{
    if i < 0 || i >= t.len() || k < 0 || k >= t[i].children.len() {
        Seq::empty()
    } else {
        let c = t[i].children[k] as int;
        (if i < c < t.len() && (!defs_only || py_is_def(t[c].kind)) {
            py_node(t, src, path, parent, c)
        } else {
            Seq::empty()
        }) + py_children(t, src, path, parent, i, defs_only, k + 1)
    }
}

fn is_self_or_cls_exec(name: &String) -> (r: bool)
    ensures
        r == is_self_or_cls(name@),
{
    str_eq(name.as_str(), "self") || str_eq(name.as_str(), "cls")
}

fn py_param_name_of(t: &SyntaxTree, src: &[u8], c: usize) -> (r: String)
    requires
        tree_fits(t@, src@.len()),
        c < t@.len(),
    ensures
        r@ == py_param_name(t@, src@, c as int),
{
    match child_by_field(t, c, "name") {
        Some(n) => node_text(t, src, n),
        None => {
            let cn = &t.nodes[c];
            assert(t@[c as int] == cn@);
            if cn.children.len() > 0 {
                let f = cn.children[0];
                assert(c < t@[c as int].children[0] < t@.len());
                node_text(t, src, f)
            } else {
                String::new()
            }
        },
    }
}

fn py_parameters(t: &SyntaxTree, src: &[u8], i: usize) -> (r: Vec<Parameter>)
    requires
        tree_fits(t@, src@.len()),
        i < t@.len(),
    ensures
        params_view(r@) == py_params(t@, src@, i as int),
{
    let ghost tv = t@;
    let mut out: Vec<Parameter> = Vec::new();
    match child_by_field(t, i, "parameters") {
        None => {
            proof {
                assert(params_view(out@) =~= Seq::<ParameterView>::empty());
            }
            out
        },
        Some(p) => {
            let pn = &t.nodes[p];
            assert(tv[p as int] == pn@);
            let mut k: usize = 0;
            proof {
                assert(params_view(out@) + py_params_from(tv, src@, p as int, 0) =~= py_params_from(tv, src@, p as int, 0));
            }
            while k < pn.children.len()
                invariant
                    k <= pn.children@.len(),
                    tv == t@,
                    tree_fits(tv, src@.len()),
                    p < tv.len(),
                    tv[p as int] == pn@,
                    params_view(out@) + py_params_from(tv, src@, p as int, k as int) == py_params_from(tv, src@, p as int, 0),
                decreases pn.children.len() - k,
            {
                let c = pn.children[k];
                assert(p < tv[p as int].children[k as int] < tv.len());
                let ghost before = params_view(out@);
                if kind_is(t, c, "identifier") {
                    let name = node_text(t, src, c);
                    if !is_self_or_cls_exec(&name) {
                        let param = Parameter { name, type_annotation: None };
                        out.push(param);
                        proof {
                            assert(params_view(out@) =~= before.push(param@));
                        }
                    }
                } else if kind_is(t, c, "typed_parameter") || kind_is(t, c, "default_parameter") || kind_is(t, c, "typed_default_parameter") {
                    let name = py_param_name_of(t, src, c);
                    if !is_self_or_cls_exec(&name) {
                        let ty = child_by_field(t, c, "type");
                        let type_annotation = opt_node_text(t, src, ty);
                        let param = Parameter { name, type_annotation };
                        out.push(param);
                        proof {
                            assert(params_view(out@) =~= before.push(param@));
                        }
                    }
                }
                k = k + 1;
            }
            proof {
                assert(params_view(out@) =~= py_params_from(tv, src@, p as int, 0));
            }
            out
        },
    }
}

fn qualified_dot(parent: &Option<String>, name: &String) -> (r: String)
    ensures
        r@ == qualify_dot(opt_view(*parent), name@),
{
    match parent {
        Some(p) => {
            let mut s = p.clone();
            push_str(&mut s, ".");
            push_str(&mut s, name.as_str());
            s
        },
        None => name.clone(),
    }
}

fn py_visibility_of(name: &String) -> (r: Visibility)
    ensures
        r == py_visibility(name@),
{
    let c = chars_of(name.as_str());
    if c.len() > 0 && c[0] == '_' {
        Visibility::Private
    } else {
        Visibility::Public
    }
}

fn extract_python_function(t: &SyntaxTree, src: &[u8], path: &str, parent: &Option<String>, i: usize) -> (r: Option<Symbol>)
    requires
        tree_fits(t@, src@.len()),
        i < t@.len(),
    ensures
        match r {
            Some(s) => py_function(t@, src@, path@, opt_view(*parent), i as int) == Some(s@),
            None => py_function(t@, src@, path@, opt_view(*parent), i as int) is None,
        },
{
    let nn = match child_by_field(t, i, "name") {
        Some(x) => x,
        None => {
            return None;
        },
    };
    let name = node_text(t, src, nn);
    let parameters = py_parameters(t, src, i);
    let rt = child_by_field(t, i, "return_type");
    let return_type = opt_node_text(t, src, rt);
    let body_text = node_text(t, src, i);
    let signature = build_signature(name.as_str(), &parameters, &return_type);
    let visibility = py_visibility_of(&name);
    let qualified_name = qualified_dot(parent, &name);
    let kind = if parent.is_some() {
        SymbolKind::Method
    } else {
        SymbolKind::Function
    };
    let lines = node_lines(t, i);
    let parent_copy = match parent {
        Some(p) => Some(p.clone()),
        None => None,
    };
    Some(make_symbol(kind, name, qualified_name, path, lines, signature, body_text, parent_copy, visibility, parameters, return_type))
}

fn extract_python_class(t: &SyntaxTree, src: &[u8], path: &str, i: usize) -> (r: Option<Symbol>)
    requires
        tree_fits(t@, src@.len()),
        i < t@.len(),
    ensures
        match r {
            Some(s) => py_class(t@, src@, path@, i as int) == Some(s@),
            None => py_class(t@, src@, path@, i as int) is None,
        },
{
    let nn = match child_by_field(t, i, "name") {
        Some(x) => x,
        None => {
            return None;
        },
    };
    let name = node_text(t, src, nn);
    let body_text = node_text(t, src, i);
    let lines = node_lines(t, i);
    let r = make_symbol(SymbolKind::Class, name.clone(), name, path, lines, String::new(), body_text, None, Visibility::Public, Vec::new(), None);
    proof {
        assert(params_view(Seq::<Parameter>::empty()) =~= Seq::<ParameterView>::empty());
    }
    Some(r)
}

fn python_children_of(t: &SyntaxTree, src: &[u8], path: &str, parent: &Option<String>, i: usize, defs_only: bool, out: &mut Vec<Symbol>)
    requires
        tree_fits(t@, src@.len()),
        i < t@.len(),
    ensures
        syms_view(final(out)@) == syms_view(old(out)@) + py_children(t@, src@, path@, opt_view(*parent), i as int, defs_only, 0),
    decreases t@.len() - i, 0nat,
{
    let ghost tv = t@;
    let ghost pv = opt_view(*parent);
    let ghost base = syms_view(out@);
    let n = &t.nodes[i];
    assert(tv[i as int] == n@);
    let mut k: usize = 0;
    proof {
        assert(base + py_children(tv, src@, path@, pv, i as int, defs_only, 0) =~= syms_view(out@) + py_children(tv, src@, path@, pv, i as int, defs_only, 0));
    }
    while k < n.children.len()
        invariant
            k <= n.children@.len(),
            tv == t@,
            pv == opt_view(*parent),
            tree_fits(tv, src@.len()),
            i < tv.len(),
            tv[i as int] == n@,
            base + py_children(tv, src@, path@, pv, i as int, defs_only, 0) == syms_view(out@) + py_children(tv, src@, path@, pv, i as int, defs_only, k as int),
        decreases n.children.len() - k,
    {
        let c = n.children[k];
        assert(i < tv[i as int].children[k as int] < tv.len());
        let ghost mid = syms_view(out@);
        let take = !defs_only || kind_is(t, c, "function_definition") || kind_is(t, c, "class_definition");
        if take {
            extract_python_node(t, src, path, parent, c, out);
        }
        proof {
            let rest = py_children(tv, src@, path@, pv, i as int, defs_only, k + 1);
            let part = if take { py_node(tv, src@, path@, pv, c as int) } else { Seq::<SymbolView>::empty() };
            assert(py_children(tv, src@, path@, pv, i as int, defs_only, k as int) == part + rest);
            assert(syms_view(out@) =~= mid + part);
            assert(mid + (part + rest) =~= syms_view(out@) + rest);
        }
        k = k + 1;
    }
    proof {
        assert(syms_view(out@) + py_children(tv, src@, path@, pv, i as int, defs_only, k as int) =~= syms_view(out@));
    }
}

/// Adds the symbols of the subtree at `i` of a Python file.
fn extract_python_node(t: &SyntaxTree, src: &[u8], path: &str, parent: &Option<String>, i: usize, out: &mut Vec<Symbol>)
    requires
        tree_fits(t@, src@.len()),
        i < t@.len(),
    ensures
        syms_view(final(out)@) == syms_view(old(out)@) + py_node(t@, src@, path@, opt_view(*parent), i as int),
    decreases t@.len() - i, 1nat,
{
    let ghost tv = t@;
    let ghost pv = opt_view(*parent);
    let ghost base = syms_view(out@);
    if kind_is(t, i, "function_definition") {
        let s = extract_python_function(t, src, path, parent, i);
        push_opt(out, s);
    } else if kind_is(t, i, "class_definition") {
        match extract_python_class(t, src, path, i) {
            Some(s) => {
                let name = Some(s.name.clone());
                push_opt(out, Some(s));
                match child_by_field(t, i, "body") {
                    Some(b) => {
                        python_children_of(t, src, path, &name, b, false, out);
                    },
                    None => {},
                }
                proof { assert(syms_view(out@) =~= base + py_node(tv, src@, path@, pv, i as int)); }
            },
            None => {
                python_children_of(t, src, path, parent, i, false, out);
            },
        }
    } else if kind_is(t, i, "decorated_definition") {
        python_children_of(t, src, path, parent, i, true, out);
    } else {
        python_children_of(t, src, path, parent, i, false, out);
    }
}


// ------------------------------------------------- TypeScript / JavaScript

/// The node whose leading comment belongs to `i`: its `export` statement
/// when it stands in one, else `i` itself.
pub open spec fn ts_comment_target(t: TreeView, i: int) -> int {
    match t[i].parent {
        Some(p) => if t[p as int].kind == "export_statement"@ { p as int } else { i },
        None => i,
    }
}

/// The first line of `i`, moved up to a comment right before it (or
/// before its `export` statement).
pub open spec fn ts_start_line(t: TreeView, i: int) -> usize {
    match t[ts_comment_target(t, i)].prev_sibling {
        Some(q) => if t[q as int].kind == "comment"@ {
            (t[q as int].start_row + 1) as usize
        } else {
            (t[i].start_row + 1) as usize
        },
        None => (t[i].start_row + 1) as usize,
    }
}

pub open spec fn ts_lines(t: TreeView, i: int) -> (usize, usize) {
    (ts_start_line(t, i), (t[i].end_row + 1) as usize)
}

/// Exported when it stands in an `export` statement.
pub open spec fn ts_export_vis(t: TreeView, i: int) -> Visibility {
    match t[i].parent {
        Some(p) => if t[p as int].kind == "export_statement"@ { Visibility::Public } else { Visibility::Private },
        None => Visibility::Private,
    }
}

/// The text of the first `identifier` child of `c` from position `k` on.
pub open spec fn ts_first_identifier(t: TreeView, src: Seq<u8>, c: int, k: int) -> Option<Seq<char>>
    decreases t[c].children.len() - k,
{
    if k < 0 || k >= t[c].children.len() {
        None
    } else if t[t[c].children[k] as int].kind == "identifier"@ {
        Some(text_of(t, src, t[c].children[k] as int))
    } else {
        ts_first_identifier(t, src, c, k + 1)
    }
}

/// The name of a parameter: its pattern, else its first identifier.
pub open spec fn ts_param_name(t: TreeView, src: Seq<u8>, c: int) -> Seq<char> {
    match field_child(t, c, "pattern"@) {
        Some(n) => text_of(t, src, n),
        None => match ts_first_identifier(t, src, c, 0) {
            Some(x) => x,
            None => Seq::empty(),
        },
    }
}

pub open spec fn ts_params_from(t: TreeView, src: Seq<u8>, p: int, k: int) -> Seq<ParameterView>
    decreases t[p].children.len() - k,
{
    if k < 0 || k >= t[p].children.len() {
        Seq::empty()
    } else {
        let c = t[p].children[k] as int;
        let rest = ts_params_from(t, src, p, k + 1);
        if t[c].kind == "required_parameter"@ || t[c].kind == "optional_parameter"@ {
            seq![ParameterView {
                name: ts_param_name(t, src, c),
                type_annotation: opt_text(t, src, field_child(t, c, "type"@)),
            }] + rest
        } else {
            rest
        }
    }
}

pub open spec fn ts_params(t: TreeView, src: Seq<u8>, i: int) -> Seq<ParameterView> {
    match field_child(t, i, "parameters"@) {
        Some(p) => ts_params_from(t, src, p, 0),
        None => Seq::empty(),
    }
}

/// A function declaration.
pub open spec fn ts_function(t: TreeView, src: Seq<u8>, path: Seq<char>, parent: Option<Seq<char>>, i: int) -> Option<SymbolView> {
    match field_child(t, i, "name"@) {
        None => None,
        Some(nn) => {
            let name = text_of(t, src, nn);
            let params = ts_params(t, src, i);
            let ret = opt_text(t, src, field_child(t, i, "return_type"@));
            Some(symbol_spec(
                if parent is Some { SymbolKind::Method } else { SymbolKind::Function },
                name,
                qualify_dot(parent, name),
                path,
                ts_lines(t, i),
                signature_text(name, params, ret),
                text_of(t, src, i),
                parent,
                ts_export_vis(t, i),
                params,
                ret,
            ))
        },
    }
}

pub open spec fn ts_is_function_value(k: Seq<char>) -> bool {
    k == "arrow_function"@ || k == "function_expression"@ || k == "function"@
}

/// The symbol of declarator `c` of the `const`/`let` declaration `i`: a
/// function when its value is one, else a constant; its text is the whole
/// declaration's.
pub open spec fn ts_declarator(t: TreeView, src: Seq<u8>, path: Seq<char>, parent: Option<Seq<char>>, i: int, c: int) -> Option<SymbolView> {
    if t[c].kind != "variable_declarator"@ {
        None
    } else {
        match field_child(t, c, "name"@) {
            None => None,
            Some(nn) => match field_child(t, c, "value"@) {
                None => None,
                Some(v) => {
                    let name = text_of(t, src, nn);
                    let is_fn = ts_is_function_value(t[v].kind);
                    let params = if is_fn { ts_params(t, src, v) } else { Seq::empty() };
                    let ret = if is_fn { opt_text(t, src, field_child(t, v, "return_type"@)) } else { None };
                    Some(symbol_spec(
                        if is_fn { SymbolKind::Function } else { SymbolKind::Constant },
                        name,
                        qualify_dot(parent, name),
                        path,
                        ts_lines(t, i),
                        if is_fn { signature_text(name, params, ret) } else { Seq::empty() },
                        text_of(t, src, i),
                        parent,
                        ts_export_vis(t, i),
                        params,
                        ret,
                    ))
                },
            },
        }
    }
}

pub open spec fn ts_lexical_from(t: TreeView, src: Seq<u8>, path: Seq<char>, parent: Option<Seq<char>>, i: int, k: int) -> Seq<SymbolView>
    decreases t[i].children.len() - k,
{
    if k < 0 || k >= t[i].children.len() {
        Seq::empty()
    } else {
        opt_seq(ts_declarator(t, src, path, parent, i, t[i].children[k] as int)) + ts_lexical_from(t, src, path, parent, i, k + 1)
    }
}

/// A class declaration.
pub open spec fn ts_class(t: TreeView, src: Seq<u8>, path: Seq<char>, i: int) -> Option<SymbolView> {
    match field_child(t, i, "name"@) {
        None => None,
        Some(nn) => {
            let name = text_of(t, src, nn);
            Some(symbol_spec(SymbolKind::Class, name, name, path, ts_lines(t, i), Seq::empty(), text_of(t, src, i), None,
                ts_export_vis(t, i), Seq::empty(), None))
        },
    }
}

/// A method of class `cls`; methods count as public.
pub open spec fn ts_method(t: TreeView, src: Seq<u8>, path: Seq<char>, cls: Seq<char>, c: int) -> Option<SymbolView> {
    match field_child(t, c, "name"@) {
        None => None,
        Some(nn) => {
            let name = text_of(t, src, nn);
            let params = ts_params(t, src, c);
            let ret = opt_text(t, src, field_child(t, c, "return_type"@));
            Some(symbol_spec(SymbolKind::Method, name, cls + "."@ + name, path, ts_lines(t, c),
                signature_text(name, params, ret), text_of(t, src, c), Some(cls), Visibility::Public, params, ret))
        },
    }
}

pub open spec fn ts_methods_from(t: TreeView, src: Seq<u8>, path: Seq<char>, cls: Seq<char>, b: int, k: int) -> Seq<SymbolView>
    decreases t[b].children.len() - k,
{
    if k < 0 || k >= t[b].children.len() {
        Seq::empty()
    } else {
        let c = t[b].children[k] as int;
        (if t[c].kind == "method_definition"@ { opt_seq(ts_method(t, src, path, cls, c)) } else { Seq::empty() })
            + ts_methods_from(t, src, path, cls, b, k + 1)
    }
}

pub open spec fn ts_type_kind(k: Seq<char>) -> SymbolKind {
    if k == "interface_declaration"@ {
        SymbolKind::Interface
    } else if k == "enum_declaration"@ {
        SymbolKind::Enum
    } else {
        SymbolKind::TypeAlias
    }
}

/// An interface, type alias or enum declaration.
pub open spec fn ts_type_decl(t: TreeView, src: Seq<u8>, path: Seq<char>, i: int) -> Option<SymbolView> {
    match field_child(t, i, "name"@) {
        None => None,
        Some(nn) => {
            let name = text_of(t, src, nn);
            Some(symbol_spec(ts_type_kind(t[i].kind), name, name, path, ts_lines(t, i), Seq::empty(), text_of(t, src, i),
                None, ts_export_vis(t, i), Seq::empty(), None))
        },
    }
}

pub open spec fn ts_is_declaration(k: Seq<char>) -> bool {
    k == "function_declaration"@ || k == "class_declaration"@ || k == "lexical_declaration"@
        || k == "interface_declaration"@ || k == "type_alias_declaration"@ || k == "enum_declaration"@
}

/// Whether a child of `i` from position `k` on is the `default` keyword.
pub open spec fn ts_has_default(t: TreeView, src: Seq<u8>, i: int, k: int) -> bool
    decreases t[i].children.len() - k,
{
    if k < 0 || k >= t[i].children.len() {
        false
    } else {
        let c = t[i].children[k] as int;
        t[c].kind == "default"@ || text_of(t, src, c) == "default"@ || ts_has_default(t, src, i, k + 1)
    }
}

/// Whether a child of `i` from position `k` on is a named declaration.
pub open spec fn ts_has_declaration(t: TreeView, i: int, k: int) -> bool
    decreases t[i].children.len() - k,
{
    if k < 0 || k >= t[i].children.len() {
        false
    } else {
        ts_is_declaration(t[t[i].children[k] as int].kind) || ts_has_declaration(t, i, k + 1)
    }
}

/// `export default <expression>` as a public constant named `default`.
pub open spec fn ts_export_default(t: TreeView, src: Seq<u8>, path: Seq<char>, i: int) -> Option<SymbolView> {
    if !ts_has_default(t, src, i, 0) || ts_has_declaration(t, i, 0) {
        None
    } else {
        Some(symbol_spec(SymbolKind::Constant, "default"@, "default"@, path, lines_of(t, i), Seq::empty(), text_of(t, src, i),
            None, Visibility::Public, Seq::empty(), None))
    }
}

/// The symbols of the subtree at `i` of a TypeScript or JavaScript file;
/// function bodies are not entered.
pub open spec fn ts_node(t: TreeView, src: Seq<u8>, path: Seq<char>, parent: Option<Seq<char>>, i: int) -> Seq<SymbolView>
    decreases t.len() - i, t[i].children.len() + 1,
{
    if i < 0 || i >= t.len() {
        Seq::empty()
    } else {
        let k = t[i].kind;
        if k == "function_declaration"@ {
            opt_seq(ts_function(t, src, path, parent, i))
        } else if k == "export_statement"@ {
            opt_seq(ts_export_default(t, src, path, i)) + ts_children(t, src, path, parent, i, 0)
        } else if k == "lexical_declaration"@ {
            ts_lexical_from(t, src, path, parent, i, 0)
        } else if k == "class_declaration"@ {
            match ts_class(t, src, path, i) {
                Some(s) => seq![s] + match field_child(t, i, "body"@) {
                    Some(b) => ts_methods_from(t, src, path, s.name, b, 0),
                    None => Seq::empty(),
                },
                None => ts_children(t, src, path, parent, i, 0),
            }
        } else if k == "interface_declaration"@ || k == "type_alias_declaration"@ || k == "enum_declaration"@ {
            opt_seq(ts_type_decl(t, src, path, i))
        } else if ts_is_function_value(k) {
            Seq::empty()
        } else {
            ts_children(t, src, path, parent, i, 0)
        }
    }
}

pub open spec fn ts_children(t: TreeView, src: Seq<u8>, path: Seq<char>, parent: Option<Seq<char>>, i: int, k: int) -> Seq<SymbolView>
    decreases t.len() - i, t[i].children.len() - k,
{
    if i < 0 || i >= t.len() || k < 0 || k >= t[i].children.len() {
        Seq::empty()
    } else {
        let c = t[i].children[k] as int;
        (if i < c < t.len() { ts_node(t, src, path, parent, c) } else { Seq::empty() }) + ts_children(t, src, path, parent, i, k + 1)
    }
}

fn ts_lines_of(t: &SyntaxTree, i: usize) -> (r: (usize, usize))
    requires
        i < t@.len(),
        exists|n: nat| tree_fits(t@, n),
    ensures
        r == ts_lines(t@, i as int),
{
    let ghost tv = t@;
    let ghost nn = choose|n: nat| tree_fits(tv, n);
    assert(tv[i as int] == t.nodes@[i as int]@);
    let target = match t.nodes[i].parent {
        Some(p) => if kind_is(t, p, "export_statement") { p } else { i },
        None => i,
    };
    assert(tv[target as int] == t.nodes@[target as int]@);
    let start = match t.nodes[target].prev_sibling {
        Some(q) => if kind_is(t, q, "comment") {
            assert(tv[q as int] == t.nodes@[q as int]@);
            assert(tv[q as int].start_row < usize::MAX);
            t.nodes[q].start_row + 1
        } else {
            t.nodes[i].start_row + 1
        },
        None => t.nodes[i].start_row + 1,
    };
    (start, t.nodes[i].end_row + 1)
}

fn ts_export_vis_of(t: &SyntaxTree, i: usize) -> (r: Visibility)
    requires
        i < t@.len(),
        exists|n: nat| tree_fits(t@, n),
    ensures
        r == ts_export_vis(t@, i as int),
{
    let ghost nn = choose|n: nat| tree_fits(t@, n);
    assert(t@[i as int] == t.nodes@[i as int]@);
    match t.nodes[i].parent {
        Some(p) => if kind_is(t, p, "export_statement") { Visibility::Public } else { Visibility::Private },
        None => Visibility::Private,
    }
}

fn ts_param_name_of(t: &SyntaxTree, src: &[u8], c: usize) -> (r: String)
    requires
        tree_fits(t@, src@.len()),
        c < t@.len(),
    ensures
        r@ == ts_param_name(t@, src@, c as int),
{
    let ghost tv = t@;
    match child_by_field(t, c, "pattern") {
        Some(n) => node_text(t, src, n),
        None => {
            let cn = &t.nodes[c];
            assert(tv[c as int] == cn@);
            let mut k: usize = 0;
            while k < cn.children.len()
                invariant
                    k <= cn.children@.len(),
                    tv == t@,
                    tree_fits(tv, src@.len()),
                    c < tv.len(),
                    tv[c as int] == cn@,
                    ts_first_identifier(tv, src@, c as int, k as int) == ts_first_identifier(tv, src@, c as int, 0),
                    field_child(tv, c as int, "pattern"@) is None,
                decreases cn.children.len() - k,
            {
                let d = cn.children[k];
                assert(c < tv[c as int].children[k as int] < tv.len());
                if kind_is(t, d, "identifier") {
                    return node_text(t, src, d);
                }
                k = k + 1;
            }
            String::new()
        },
    }
}

fn ts_parameters(t: &SyntaxTree, src: &[u8], i: usize) -> (r: Vec<Parameter>)
    requires
        tree_fits(t@, src@.len()),
        i < t@.len(),
    ensures
        params_view(r@) == ts_params(t@, src@, i as int),
{
    let ghost tv = t@;
    let mut out: Vec<Parameter> = Vec::new();
    match child_by_field(t, i, "parameters") {
        None => {
            proof {
                assert(params_view(out@) =~= Seq::<ParameterView>::empty());
            }
            out
        },
        Some(p) => {
            let pn = &t.nodes[p];
            assert(tv[p as int] == pn@);
            let mut k: usize = 0;
            proof {
                assert(params_view(out@) + ts_params_from(tv, src@, p as int, 0) =~= ts_params_from(tv, src@, p as int, 0));
            }
            while k < pn.children.len()
                invariant
                    k <= pn.children@.len(),
                    tv == t@,
                    tree_fits(tv, src@.len()),
                    p < tv.len(),
                    tv[p as int] == pn@,
                    params_view(out@) + ts_params_from(tv, src@, p as int, k as int) == ts_params_from(tv, src@, p as int, 0),
                decreases pn.children.len() - k,
            {
                let c = pn.children[k];
                assert(p < tv[p as int].children[k as int] < tv.len());
                let ghost before = params_view(out@);
                if kind_is(t, c, "required_parameter") || kind_is(t, c, "optional_parameter") {
                    let name = ts_param_name_of(t, src, c);
                    let ty = child_by_field(t, c, "type");
                    let type_annotation = opt_node_text(t, src, ty);
                    let param = Parameter { name, type_annotation };
                    out.push(param);
                    proof {
                        assert(params_view(out@) =~= before.push(param@));
                    }
                }
                k = k + 1;
            }
            proof {
                assert(params_view(out@) =~= ts_params_from(tv, src@, p as int, 0));
            }
            out
        },
    }
}

fn extract_ts_function(t: &SyntaxTree, src: &[u8], path: &str, parent: &Option<String>, i: usize) -> (r: Option<Symbol>)
    requires
        tree_fits(t@, src@.len()),
        i < t@.len(),
    ensures
        match r {
            Some(s) => ts_function(t@, src@, path@, opt_view(*parent), i as int) == Some(s@),
            None => ts_function(t@, src@, path@, opt_view(*parent), i as int) is None,
        },
{
    let nn = match child_by_field(t, i, "name") {
        Some(x) => x,
        None => {
            return None;
        },
    };
    let name = node_text(t, src, nn);
    let parameters = ts_parameters(t, src, i);
    let rt = child_by_field(t, i, "return_type");
    let return_type = opt_node_text(t, src, rt);
    let body_text = node_text(t, src, i);
    let signature = build_signature(name.as_str(), &parameters, &return_type);
    let visibility = ts_export_vis_of(t, i);
    let qualified_name = qualified_dot(parent, &name);
    let kind = if parent.is_some() {
        SymbolKind::Method
    } else {
        SymbolKind::Function
    };
    let lines = ts_lines_of(t, i);
    let parent_copy = match parent {
        Some(p) => Some(p.clone()),
        None => None,
    };
    Some(make_symbol(kind, name, qualified_name, path, lines, signature, body_text, parent_copy, visibility, parameters, return_type))
}

fn is_function_value_kind(t: &SyntaxTree, v: usize) -> (r: bool)
    requires
        v < t@.len(),
    ensures
        r == ts_is_function_value(t@[v as int].kind),
{
    kind_is(t, v, "arrow_function") || kind_is(t, v, "function_expression") || kind_is(t, v, "function")
}

fn extract_ts_declarator(t: &SyntaxTree, src: &[u8], path: &str, parent: &Option<String>, i: usize, c: usize) -> (r: Option<Symbol>)
    requires
        tree_fits(t@, src@.len()),
        i < t@.len(),
        c < t@.len(),
    ensures
        match r {
            Some(s) => ts_declarator(t@, src@, path@, opt_view(*parent), i as int, c as int) == Some(s@),
            None => ts_declarator(t@, src@, path@, opt_view(*parent), i as int, c as int) is None,
        },
{
    if !kind_is(t, c, "variable_declarator") {
        return None;
    }
    let nn = match child_by_field(t, c, "name") {
        Some(x) => x,
        None => {
            return None;
        },
    };
    let v = match child_by_field(t, c, "value") {
        Some(x) => x,
        None => {
            return None;
        },
    };
    let name = node_text(t, src, nn);
    let is_fn = is_function_value_kind(t, v);
    let body_text = node_text(t, src, i);
    let visibility = ts_export_vis_of(t, i);
    let qualified_name = qualified_dot(parent, &name);
    let lines = ts_lines_of(t, i);
    let parent_copy = match parent {
        Some(p) => Some(p.clone()),
        None => None,
    };
    if is_fn {
        let parameters = ts_parameters(t, src, v);
        let rt = child_by_field(t, v, "return_type");
        let return_type = opt_node_text(t, src, rt);
        let signature = build_signature(name.as_str(), &parameters, &return_type);
        Some(make_symbol(SymbolKind::Function, name, qualified_name, path, lines, signature, body_text, parent_copy, visibility, parameters, return_type))
    } else {
        let r = make_symbol(SymbolKind::Constant, name, qualified_name, path, lines, String::new(), body_text, parent_copy, visibility, Vec::new(), None);
        proof {
            assert(params_view(Seq::<Parameter>::empty()) =~= Seq::<ParameterView>::empty());
        }
        Some(r)
    }
}

fn ts_lexical(t: &SyntaxTree, src: &[u8], path: &str, parent: &Option<String>, i: usize, out: &mut Vec<Symbol>)
    requires
        tree_fits(t@, src@.len()),
        i < t@.len(),
    ensures
        syms_view(final(out)@) == syms_view(old(out)@) + ts_lexical_from(t@, src@, path@, opt_view(*parent), i as int, 0),
{
    let ghost tv = t@;
    let ghost pv = opt_view(*parent);
    let ghost base = syms_view(out@);
    let n = &t.nodes[i];
    assert(tv[i as int] == n@);
    let mut k: usize = 0;
    proof {
        assert(base + ts_lexical_from(tv, src@, path@, pv, i as int, 0) =~= syms_view(out@) + ts_lexical_from(tv, src@, path@, pv, i as int, 0));
    }
    while k < n.children.len()
        invariant
            k <= n.children@.len(),
            tv == t@,
            pv == opt_view(*parent),
            tree_fits(tv, src@.len()),
            i < tv.len(),
            tv[i as int] == n@,
            base + ts_lexical_from(tv, src@, path@, pv, i as int, 0) == syms_view(out@) + ts_lexical_from(tv, src@, path@, pv, i as int, k as int),
        decreases n.children.len() - k,
    {
        let c = n.children[k];
        assert(i < tv[i as int].children[k as int] < tv.len());
        let ghost mid = syms_view(out@);
        let s = extract_ts_declarator(t, src, path, parent, i, c);
        push_opt(out, s);
        proof {
            let rest = ts_lexical_from(tv, src@, path@, pv, i as int, k + 1);
            let part = opt_seq(ts_declarator(tv, src@, path@, pv, i as int, c as int));
            assert(mid + (part + rest) =~= syms_view(out@) + rest);
        }
        k = k + 1;
    }
    proof {
        assert(syms_view(out@) + ts_lexical_from(tv, src@, path@, pv, i as int, k as int) =~= syms_view(out@));
    }
}

fn extract_ts_class(t: &SyntaxTree, src: &[u8], path: &str, i: usize) -> (r: Option<Symbol>)
    requires
        tree_fits(t@, src@.len()),
        i < t@.len(),
    ensures
        match r {
            Some(s) => ts_class(t@, src@, path@, i as int) == Some(s@),
            None => ts_class(t@, src@, path@, i as int) is None,
        },
{
    let nn = match child_by_field(t, i, "name") {
        Some(x) => x,
        None => {
            return None;
        },
    };
    let name = node_text(t, src, nn);
    let body_text = node_text(t, src, i);
    let lines = ts_lines_of(t, i);
    let visibility = ts_export_vis_of(t, i);
    let r = make_symbol(SymbolKind::Class, name.clone(), name, path, lines, String::new(), body_text, None, visibility, Vec::new(), None);
    proof {
        assert(params_view(Seq::<Parameter>::empty()) =~= Seq::<ParameterView>::empty());
    }
    Some(r)
}

fn extract_ts_method(t: &SyntaxTree, src: &[u8], path: &str, cls: &String, c: usize) -> (r: Option<Symbol>)
    requires
        tree_fits(t@, src@.len()),
        c < t@.len(),
    ensures
        match r {
            Some(s) => ts_method(t@, src@, path@, cls@, c as int) == Some(s@),
            None => ts_method(t@, src@, path@, cls@, c as int) is None,
        },
{
    let nn = match child_by_field(t, c, "name") {
        Some(x) => x,
        None => {
            return None;
        },
    };
    let name = node_text(t, src, nn);
    let parameters = ts_parameters(t, src, c);
    let rt = child_by_field(t, c, "return_type");
    let return_type = opt_node_text(t, src, rt);
    let body_text = node_text(t, src, c);
    let signature = build_signature(name.as_str(), &parameters, &return_type);
    let mut q = cls.clone();
    push_str(&mut q, ".");
    push_str(&mut q, name.as_str());
    let lines = ts_lines_of(t, c);
    Some(make_symbol(SymbolKind::Method, name, q, path, lines, signature, body_text, Some(cls.clone()), Visibility::Public, parameters, return_type))
}

fn ts_methods(t: &SyntaxTree, src: &[u8], path: &str, cls: &String, b: usize, out: &mut Vec<Symbol>)
    requires
        tree_fits(t@, src@.len()),
        b < t@.len(),
    ensures
        syms_view(final(out)@) == syms_view(old(out)@) + ts_methods_from(t@, src@, path@, cls@, b as int, 0),
{
    let ghost tv = t@;
    let ghost base = syms_view(out@);
    let n = &t.nodes[b];
    assert(tv[b as int] == n@);
    let mut k: usize = 0;
    proof {
        assert(base + ts_methods_from(tv, src@, path@, cls@, b as int, 0) =~= syms_view(out@) + ts_methods_from(tv, src@, path@, cls@, b as int, 0));
    }
    while k < n.children.len()
        invariant
            k <= n.children@.len(),
            tv == t@,
            tree_fits(tv, src@.len()),
            b < tv.len(),
            tv[b as int] == n@,
            base + ts_methods_from(tv, src@, path@, cls@, b as int, 0) == syms_view(out@) + ts_methods_from(tv, src@, path@, cls@, b as int, k as int),
        decreases n.children.len() - k,
    {
        let c = n.children[k];
        assert(b < tv[b as int].children[k as int] < tv.len());
        let ghost mid = syms_view(out@);
        let ghost part = if tv[c as int].kind == "method_definition"@ { opt_seq(ts_method(tv, src@, path@, cls@, c as int)) } else { Seq::<SymbolView>::empty() };
        if kind_is(t, c, "method_definition") {
            let s = extract_ts_method(t, src, path, cls, c);
            push_opt(out, s);
        } else {
            proof { assert(syms_view(out@) + Seq::<SymbolView>::empty() =~= syms_view(out@)); }
        }
        proof {
            let rest = ts_methods_from(tv, src@, path@, cls@, b as int, k + 1);
            assert(syms_view(out@) == mid + part);
            assert(mid + (part + rest) =~= syms_view(out@) + rest);
        }
        k = k + 1;
    }
    proof {
        assert(syms_view(out@) + ts_methods_from(tv, src@, path@, cls@, b as int, k as int) =~= syms_view(out@));
    }
}

fn extract_ts_type_decl(t: &SyntaxTree, src: &[u8], path: &str, i: usize) -> (r: Option<Symbol>)
    requires
        tree_fits(t@, src@.len()),
        i < t@.len(),
    ensures
        match r {
            Some(s) => ts_type_decl(t@, src@, path@, i as int) == Some(s@),
            None => ts_type_decl(t@, src@, path@, i as int) is None,
        },
{
    let nn = match child_by_field(t, i, "name") {
        Some(x) => x,
        None => {
            return None;
        },
    };
    let name = node_text(t, src, nn);
    let kind = if kind_is(t, i, "interface_declaration") {
        SymbolKind::Interface
    } else if kind_is(t, i, "enum_declaration") {
        SymbolKind::Enum
    } else {
        SymbolKind::TypeAlias
    };
    let body_text = node_text(t, src, i);
    let lines = ts_lines_of(t, i);
    let visibility = ts_export_vis_of(t, i);
    let r = make_symbol(kind, name.clone(), name, path, lines, String::new(), body_text, None, visibility, Vec::new(), None);
    proof {
        assert(params_view(Seq::<Parameter>::empty()) =~= Seq::<ParameterView>::empty());
    }
    Some(r)
}

fn is_declaration_kind(t: &SyntaxTree, c: usize) -> (r: bool)
    requires
        c < t@.len(),
    ensures
        r == ts_is_declaration(t@[c as int].kind),
{
    kind_is(t, c, "function_declaration") || kind_is(t, c, "class_declaration") || kind_is(t, c, "lexical_declaration")
        || kind_is(t, c, "interface_declaration") || kind_is(t, c, "type_alias_declaration") || kind_is(t, c, "enum_declaration")
}

fn extract_ts_export_default(t: &SyntaxTree, src: &[u8], path: &str, i: usize) -> (r: Option<Symbol>)
    requires
        tree_fits(t@, src@.len()),
        i < t@.len(),
    ensures
        match r {
            Some(s) => ts_export_default(t@, src@, path@, i as int) == Some(s@),
            None => ts_export_default(t@, src@, path@, i as int) is None,
        },
{
    let ghost tv = t@;
    let n = &t.nodes[i];
    assert(tv[i as int] == n@);
    let mut has_default = false;
    let mut has_declaration = false;
    let mut k: usize = n.children.len();
    while k > 0
        invariant
            k <= n.children@.len(),
            tv == t@,
            tree_fits(tv, src@.len()),
            i < tv.len(),
            tv[i as int] == n@,
            has_default == ts_has_default(tv, src@, i as int, k as int),
            has_declaration == ts_has_declaration(tv, i as int, k as int),
        decreases k,
    {
        k = k - 1;
        let c = n.children[k];
        assert(i < tv[i as int].children[k as int] < tv.len());
        if kind_is(t, c, "default") {
            has_default = true;
        } else {
            let text = node_text(t, src, c);
            if str_eq(text.as_str(), "default") {
                has_default = true;
            }
        }
        if is_declaration_kind(t, c) {
            has_declaration = true;
        }
    }
    if !has_default || has_declaration {
        return None;
    }
    let body_text = node_text(t, src, i);
    let lines = node_lines(t, i);
    let r = make_symbol(
        SymbolKind::Constant,
        String::from_str("default"),
        String::from_str("default"),
        path,
        lines,
        String::new(),
        body_text,
        None,
        Visibility::Public,
        Vec::new(),
        None,
    );
    proof {
        assert(params_view(Seq::<Parameter>::empty()) =~= Seq::<ParameterView>::empty());
    }
    Some(r)
}

fn ts_children_of(t: &SyntaxTree, src: &[u8], path: &str, parent: &Option<String>, i: usize, out: &mut Vec<Symbol>)
    requires
        tree_fits(t@, src@.len()),
        i < t@.len(),
    ensures
        syms_view(final(out)@) == syms_view(old(out)@) + ts_children(t@, src@, path@, opt_view(*parent), i as int, 0),
    decreases t@.len() - i, 0nat,
{
    let ghost tv = t@;
    let ghost pv = opt_view(*parent);
    let ghost base = syms_view(out@);
    let n = &t.nodes[i];
    assert(tv[i as int] == n@);
    let mut k: usize = 0;
    proof {
        assert(base + ts_children(tv, src@, path@, pv, i as int, 0) =~= syms_view(out@) + ts_children(tv, src@, path@, pv, i as int, 0));
    }
    while k < n.children.len()
        invariant
            k <= n.children@.len(),
            tv == t@,
            pv == opt_view(*parent),
            tree_fits(tv, src@.len()),
            i < tv.len(),
            tv[i as int] == n@,
            base + ts_children(tv, src@, path@, pv, i as int, 0) == syms_view(out@) + ts_children(tv, src@, path@, pv, i as int, k as int),
        decreases n.children.len() - k,
    {
        let c = n.children[k];
        assert(i < tv[i as int].children[k as int] < tv.len());
        let ghost mid = syms_view(out@);
        extract_ts_node(t, src, path, parent, c, out);
        proof {
            let rest = ts_children(tv, src@, path@, pv, i as int, k + 1);
            assert(ts_children(tv, src@, path@, pv, i as int, k as int) == ts_node(tv, src@, path@, pv, c as int) + rest);
            assert(mid + (ts_node(tv, src@, path@, pv, c as int) + rest) =~= syms_view(out@) + rest);
        }
        k = k + 1;
    }
    proof {
        assert(syms_view(out@) + ts_children(tv, src@, path@, pv, i as int, k as int) =~= syms_view(out@));
    }
}

/// Adds the symbols of the subtree at `i` of a TypeScript or JavaScript file.
fn extract_ts_node(t: &SyntaxTree, src: &[u8], path: &str, parent: &Option<String>, i: usize, out: &mut Vec<Symbol>)
    requires
        tree_fits(t@, src@.len()),
        i < t@.len(),
    ensures
        syms_view(final(out)@) == syms_view(old(out)@) + ts_node(t@, src@, path@, opt_view(*parent), i as int),
    decreases t@.len() - i, 1nat,
{
    let ghost tv = t@;
    let ghost pv = opt_view(*parent);
    let ghost base = syms_view(out@);
    if kind_is(t, i, "function_declaration") {
        let s = extract_ts_function(t, src, path, parent, i);
        push_opt(out, s);
    } else if kind_is(t, i, "export_statement") {
        let s = extract_ts_export_default(t, src, path, i);
        push_opt(out, s);
        ts_children_of(t, src, path, parent, i, out);
        proof { assert(syms_view(out@) =~= base + ts_node(tv, src@, path@, pv, i as int)); }
    } else if kind_is(t, i, "lexical_declaration") {
        ts_lexical(t, src, path, parent, i, out);
    } else if kind_is(t, i, "class_declaration") {
        match extract_ts_class(t, src, path, i) {
            Some(s) => {
                let name = s.name.clone();
                push_opt(out, Some(s));
                match child_by_field(t, i, "body") {
                    Some(b) => {
                        ts_methods(t, src, path, &name, b, out);
                    },
                    None => {},
                }
                proof { assert(syms_view(out@) =~= base + ts_node(tv, src@, path@, pv, i as int)); }
            },
            None => {
                ts_children_of(t, src, path, parent, i, out);
            },
        }
    } else if kind_is(t, i, "interface_declaration") || kind_is(t, i, "type_alias_declaration") || kind_is(t, i, "enum_declaration") {
        let s = extract_ts_type_decl(t, src, path, i);
        push_opt(out, s);
    } else if is_function_value_kind(t, i) {
        proof { assert(syms_view(out@) =~= base + ts_node(tv, src@, path@, pv, i as int)); }
    } else {
        ts_children_of(t, src, path, parent, i, out);
    }
}

// ------------------------------------------------------------------- File

/// The symbols of the subtree at `i` in a file of language `lang`.
pub open spec fn symbols_node(lang: Language, t: TreeView, src: Seq<u8>, path: Seq<char>, i: int) -> Seq<SymbolView> {
    match lang {
        Language::Rust => rust_node(t, src, path, None, i),
        Language::Go => go_node(t, src, path, i),
        Language::TypeScript | Language::Tsx | Language::JavaScript => ts_node(t, src, path, None, i),
        Language::Python => py_node(t, src, path, None, i),
    }
}

/// The symbols of a parsed file (`tree` parsed from `source`) in document
/// order: what the root's subtree gives, nothing for an empty tree.
pub open spec fn file_symbols(lang: Language, t: TreeView, src: Seq<u8>, path: Seq<char>) -> Seq<SymbolView> {
    if t.len() > 0 { symbols_node(lang, t, src, path, 0) } else { Seq::empty() }
}

/// Extracts the symbols of a parsed file.
pub fn extract_symbols(t: &SyntaxTree, source: &[u8], path: &str, language: Language) -> (r: Vec<Symbol>)
    requires
        tree_fits(t@, source@.len()),
    ensures
        syms_view(r@) == file_symbols(language, t@, source@, path@),
{
    let mut out: Vec<Symbol> = Vec::new();
    proof {
        assert(syms_view(out@) =~= Seq::<SymbolView>::empty());
    }
    if t.nodes.len() > 0 {
        let none: Option<String> = None;
        match language {
            Language::Rust => extract_rust_node(t, source, path, &none, 0, &mut out),
            Language::Go => extract_go_node(t, source, path, 0, &mut out),
            Language::TypeScript | Language::Tsx | Language::JavaScript => extract_ts_node(t, source, path, &none, 0, &mut out),
            Language::Python => extract_python_node(t, source, path, &none, 0, &mut out),
        }
        proof {
            assert(syms_view(out@) =~= file_symbols(language, t@, source@, path@));
        }
    }
    out
}


// ------------------------------------------------------ symbols and files

/// Every symbol lies in file `path`.
pub open spec fn all_in_file(s: Seq<SymbolView>, path: Seq<char>) -> bool {
    forall|k: int| 0 <= k < s.len() ==> (#[trigger] s[k]).file_path == path
}

proof fn lemma_in_file_concat(a: Seq<SymbolView>, b: Seq<SymbolView>, path: Seq<char>)
    requires
        all_in_file(a, path),
        all_in_file(b, path),
    ensures
        all_in_file(a + b, path),
{
    assert forall|k: int| 0 <= k < (a + b).len() implies (#[trigger] (a + b)[k]).file_path == path by {
        if k < a.len() {
            assert((a + b)[k] == a[k]);
        } else {
            assert((a + b)[k] == b[k - a.len()]);
        }
    }
}

proof fn lemma_opt_in_file(o: Option<SymbolView>, path: Seq<char>)
    requires
        o matches Some(s) ==> s.file_path == path,
    ensures
        all_in_file(opt_seq(o), path),
{
}

proof fn lemma_rust_in_file(t: TreeView, src: Seq<u8>, path: Seq<char>, parent: Option<Seq<char>>, i: int)
    ensures
        all_in_file(rust_node(t, src, path, parent, i), path),
    decreases t.len() - i, t[i].children.len() + 1,
{
    if 0 <= i < t.len() {
        let k = t[i].kind;
        lemma_rust_children_in_file(t, src, path, parent, i, 0);
        if k == "function_item"@ || k == "function_signature_item"@ {
            lemma_opt_in_file(rust_function(t, src, path, parent, i), path);
            lemma_in_file_concat(opt_seq(rust_function(t, src, path, parent, i)), rust_children(t, src, path, parent, i, 0), path);
        } else if k == "struct_item"@ {
            if let Some(s) = rust_type_def(t, src, path, SymbolKind::Struct, i) {
                lemma_rust_children_in_file(t, src, path, Some(s.name), i, 0);
                lemma_in_file_concat(seq![s], rust_children(t, src, path, Some(s.name), i, 0), path);
            }
        } else if k == "enum_item"@ {
            lemma_opt_in_file(rust_type_def(t, src, path, SymbolKind::Enum, i), path);
            lemma_in_file_concat(opt_seq(rust_type_def(t, src, path, SymbolKind::Enum, i)), rust_children(t, src, path, parent, i, 0), path);
        } else if k == "trait_item"@ {
            if let Some(s) = rust_type_def(t, src, path, SymbolKind::Trait, i) {
                let rest = match field_child(t, i, "body"@) {
                    Some(b) => if i < b < t.len() { rust_children(t, src, path, Some(s.name), b, 0) } else { Seq::empty() },
                    None => Seq::empty(),
                };
                if let Some(b) = field_child(t, i, "body"@) {
                    if i < b < t.len() {
                        lemma_rust_children_in_file(t, src, path, Some(s.name), b, 0);
                    }
                }
                lemma_in_file_concat(seq![s], rest, path);
            }
        } else if k == "impl_item"@ {
            let impl_name = match field_child(t, i, "type"@) {
                Some(ty) => text_of(t, src, ty),
                None => "impl"@,
            };
            if let Some(b) = field_child(t, i, "body"@) {
                if i < b < t.len() {
                    lemma_rust_children_in_file(t, src, path, Some(impl_name), b, 0);
                }
            }
        } else if k == "const_item"@ || k == "static_item"@ {
            lemma_opt_in_file(rust_const(t, src, path, parent, i), path);
            lemma_in_file_concat(opt_seq(rust_const(t, src, path, parent, i)), rust_children(t, src, path, parent, i, 0), path);
        } else if k == "type_item"@ {
            lemma_opt_in_file(rust_type_def(t, src, path, SymbolKind::TypeAlias, i), path);
            lemma_in_file_concat(opt_seq(rust_type_def(t, src, path, SymbolKind::TypeAlias, i)), rust_children(t, src, path, parent, i, 0), path);
        }
    }
}

proof fn lemma_rust_children_in_file(t: TreeView, src: Seq<u8>, path: Seq<char>, parent: Option<Seq<char>>, i: int, k: int)
    ensures
        all_in_file(rust_children(t, src, path, parent, i, k), path),
    decreases t.len() - i, t[i].children.len() - k,
{
    if 0 <= i < t.len() && 0 <= k < t[i].children.len() {
        let c = t[i].children[k] as int;
        lemma_rust_children_in_file(t, src, path, parent, i, k + 1);
        if i < c < t.len() {
            lemma_rust_in_file(t, src, path, parent, c);
            lemma_in_file_concat(rust_node(t, src, path, parent, c), rust_children(t, src, path, parent, i, k + 1), path);
        } else {
            lemma_in_file_concat(Seq::empty(), rust_children(t, src, path, parent, i, k + 1), path);
        }
    }
}


proof fn lemma_go_specs_in_file(t: TreeView, src: Seq<u8>, path: Seq<char>, i: int, types: bool, k: int)
    ensures
        all_in_file(go_specs_from(t, src, path, i, types, k), path),
    decreases t[i].children.len() - k,
{
    if 0 <= k < t[i].children.len() {
        let c = t[i].children[k] as int;
        lemma_go_specs_in_file(t, src, path, i, types, k + 1);
        let part = if types {
            if t[c].kind == "type_spec"@ { opt_seq(go_type_spec(t, src, path, c)) } else { Seq::empty() }
        } else {
            if t[c].kind == "const_spec"@ || t[c].kind == "var_spec"@ { opt_seq(go_value_spec(t, src, path, c)) } else { Seq::empty() }
        };
        lemma_opt_in_file(go_type_spec(t, src, path, c), path);
        lemma_opt_in_file(go_value_spec(t, src, path, c), path);
        lemma_in_file_concat(part, go_specs_from(t, src, path, i, types, k + 1), path);
    }
}

proof fn lemma_go_in_file(t: TreeView, src: Seq<u8>, path: Seq<char>, i: int)
    ensures
        all_in_file(go_node(t, src, path, i), path),
    decreases t.len() - i, t[i].children.len() + 1,
{
    if 0 <= i < t.len() {
        let k = t[i].kind;
        let part = if k == "function_declaration"@ {
            opt_seq(go_function(t, src, path, i, false))
        } else if k == "method_declaration"@ {
            opt_seq(go_function(t, src, path, i, true))
        } else if k == "type_declaration"@ {
            go_specs_from(t, src, path, i, true, 0)
        } else if k == "const_declaration"@ || k == "var_declaration"@ {
            go_specs_from(t, src, path, i, false, 0)
        } else {
            Seq::empty()
        };
        lemma_opt_in_file(go_function(t, src, path, i, false), path);
        lemma_opt_in_file(go_function(t, src, path, i, true), path);
        lemma_go_specs_in_file(t, src, path, i, true, 0);
        lemma_go_specs_in_file(t, src, path, i, false, 0);
        lemma_go_children_in_file(t, src, path, i, 0);
        lemma_in_file_concat(part, go_children(t, src, path, i, 0), path);
    }
}

proof fn lemma_go_children_in_file(t: TreeView, src: Seq<u8>, path: Seq<char>, i: int, k: int)
    ensures
        all_in_file(go_children(t, src, path, i, k), path),
    decreases t.len() - i, t[i].children.len() - k,
{
    if 0 <= i < t.len() && 0 <= k < t[i].children.len() {
        let c = t[i].children[k] as int;
        lemma_go_children_in_file(t, src, path, i, k + 1);
        if i < c < t.len() {
            lemma_go_in_file(t, src, path, c);
            lemma_in_file_concat(go_node(t, src, path, c), go_children(t, src, path, i, k + 1), path);
        } else {
            lemma_in_file_concat(Seq::empty(), go_children(t, src, path, i, k + 1), path);
        }
    }
}

proof fn lemma_ts_lexical_in_file(t: TreeView, src: Seq<u8>, path: Seq<char>, parent: Option<Seq<char>>, i: int, k: int)
    ensures
        all_in_file(ts_lexical_from(t, src, path, parent, i, k), path),
    decreases t[i].children.len() - k,
{
    if 0 <= k < t[i].children.len() {
        let c = t[i].children[k] as int;
        lemma_ts_lexical_in_file(t, src, path, parent, i, k + 1);
        lemma_opt_in_file(ts_declarator(t, src, path, parent, i, c), path);
        lemma_in_file_concat(opt_seq(ts_declarator(t, src, path, parent, i, c)), ts_lexical_from(t, src, path, parent, i, k + 1), path);
    }
}

proof fn lemma_ts_methods_in_file(t: TreeView, src: Seq<u8>, path: Seq<char>, cls: Seq<char>, b: int, k: int)
    ensures
        all_in_file(ts_methods_from(t, src, path, cls, b, k), path),
    decreases t[b].children.len() - k,
{
    if 0 <= k < t[b].children.len() {
        let c = t[b].children[k] as int;
        lemma_ts_methods_in_file(t, src, path, cls, b, k + 1);
        let part = if t[c].kind == "method_definition"@ { opt_seq(ts_method(t, src, path, cls, c)) } else { Seq::empty() };
        lemma_opt_in_file(ts_method(t, src, path, cls, c), path);
        lemma_in_file_concat(part, ts_methods_from(t, src, path, cls, b, k + 1), path);
    }
}

proof fn lemma_ts_in_file(t: TreeView, src: Seq<u8>, path: Seq<char>, parent: Option<Seq<char>>, i: int)
    ensures
        all_in_file(ts_node(t, src, path, parent, i), path),
    decreases t.len() - i, t[i].children.len() + 1,
{
    if 0 <= i < t.len() {
        let k = t[i].kind;
        lemma_ts_children_in_file(t, src, path, parent, i, 0);
        if k == "function_declaration"@ {
            lemma_opt_in_file(ts_function(t, src, path, parent, i), path);
        } else if k == "export_statement"@ {
            lemma_opt_in_file(ts_export_default(t, src, path, i), path);
            lemma_in_file_concat(opt_seq(ts_export_default(t, src, path, i)), ts_children(t, src, path, parent, i, 0), path);
        } else if k == "lexical_declaration"@ {
            lemma_ts_lexical_in_file(t, src, path, parent, i, 0);
        } else if k == "class_declaration"@ {
            if let Some(s) = ts_class(t, src, path, i) {
                let rest = match field_child(t, i, "body"@) {
                    Some(b) => ts_methods_from(t, src, path, s.name, b, 0),
                    None => Seq::empty(),
                };
                if let Some(b) = field_child(t, i, "body"@) {
                    lemma_ts_methods_in_file(t, src, path, s.name, b, 0);
                }
                lemma_in_file_concat(seq![s], rest, path);
            }
        } else if k == "interface_declaration"@ || k == "type_alias_declaration"@ || k == "enum_declaration"@ {
            lemma_opt_in_file(ts_type_decl(t, src, path, i), path);
        }
    }
}

proof fn lemma_ts_children_in_file(t: TreeView, src: Seq<u8>, path: Seq<char>, parent: Option<Seq<char>>, i: int, k: int)
    ensures
        all_in_file(ts_children(t, src, path, parent, i, k), path),
    decreases t.len() - i, t[i].children.len() - k,
{
    if 0 <= i < t.len() && 0 <= k < t[i].children.len() {
        let c = t[i].children[k] as int;
        lemma_ts_children_in_file(t, src, path, parent, i, k + 1);
        if i < c < t.len() {
            lemma_ts_in_file(t, src, path, parent, c);
            lemma_in_file_concat(ts_node(t, src, path, parent, c), ts_children(t, src, path, parent, i, k + 1), path);
        } else {
            lemma_in_file_concat(Seq::empty(), ts_children(t, src, path, parent, i, k + 1), path);
        }
    }
}

proof fn lemma_py_in_file(t: TreeView, src: Seq<u8>, path: Seq<char>, parent: Option<Seq<char>>, i: int)
    ensures
        all_in_file(py_node(t, src, path, parent, i), path),
    decreases t.len() - i, t[i].children.len() + 1,
{
    if 0 <= i < t.len() {
        let k = t[i].kind;
        lemma_py_children_in_file(t, src, path, parent, i, false, 0);
        lemma_py_children_in_file(t, src, path, parent, i, true, 0);
        if k == "function_definition"@ {
            lemma_opt_in_file(py_function(t, src, path, parent, i), path);
        } else if k == "class_definition"@ {
            if let Some(s) = py_class(t, src, path, i) {
                let rest = match field_child(t, i, "body"@) {
                    Some(b) => if i < b < t.len() { py_children(t, src, path, Some(s.name), b, false, 0) } else { Seq::empty() },
                    None => Seq::empty(),
                };
                if let Some(b) = field_child(t, i, "body"@) {
                    if i < b < t.len() {
                        lemma_py_children_in_file(t, src, path, Some(s.name), b, false, 0);
                    }
                }
                lemma_in_file_concat(seq![s], rest, path);
            }
        }
    }
}

proof fn lemma_py_children_in_file(t: TreeView, src: Seq<u8>, path: Seq<char>, parent: Option<Seq<char>>, i: int, defs_only: bool, k: int)
    ensures
        all_in_file(py_children(t, src, path, parent, i, defs_only, k), path),
    decreases t.len() - i, t[i].children.len() - k,
{
    if 0 <= i < t.len() && 0 <= k < t[i].children.len() {
        let c = t[i].children[k] as int;
        lemma_py_children_in_file(t, src, path, parent, i, defs_only, k + 1);
        if i < c < t.len() && (!defs_only || py_is_def(t[c].kind)) {
            lemma_py_in_file(t, src, path, parent, c);
            lemma_in_file_concat(py_node(t, src, path, parent, c), py_children(t, src, path, parent, i, defs_only, k + 1), path);
        } else {
            lemma_in_file_concat(Seq::empty(), py_children(t, src, path, parent, i, defs_only, k + 1), path);
        }
    }
}

/// Every symbol extracted from a file, in any language, records that
/// file's path.
pub proof fn lemma_file_symbols_in_file(lang: Language, t: TreeView, src: Seq<u8>, path: Seq<char>)
    ensures
        all_in_file(file_symbols(lang, t, src, path), path),
{
    if t.len() > 0 {
        match lang {
            Language::Rust => lemma_rust_in_file(t, src, path, None, 0),
            Language::Go => lemma_go_in_file(t, src, path, 0),
            Language::TypeScript | Language::Tsx | Language::JavaScript => lemma_ts_in_file(t, src, path, None, 0),
            Language::Python => lemma_py_in_file(t, src, path, None, 0),
        }
    }
}

} // verus!
