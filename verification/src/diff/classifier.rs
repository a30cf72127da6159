//! Classification of a change between two matched symbols.
use vstd::prelude::*;

use crate::ast::symbol::{
    copy_opt, hash_eq, opt_eq, opt_view, params_view, Parameter, ParameterView, Symbol,
    SymbolView,
};
use crate::diff::change::{ChangeKind, ChangeKindView, SignatureDelta, SignatureDeltaView};

verus! {

pub open spec fn names_of(ps: Seq<ParameterView>) -> Seq<Seq<char>> {
    ps.map_values(|p: ParameterView| p.name)
}

/// Parameters of `new` whose names `old` lacks.
pub open spec fn added_params(old: Seq<ParameterView>, new: Seq<ParameterView>) -> Seq<
    ParameterView,
> {
    new.filter(|p: ParameterView| !names_of(old).contains(p.name))
}

/// Names of the parameters of `old` that `new` also has, in `old`'s order.
pub open spec fn common_names(old: Seq<ParameterView>, new: Seq<ParameterView>) -> Seq<Seq<char>> {
    names_of(old.filter(|p: ParameterView| names_of(new).contains(p.name)))
}

/// Position of the first parameter named `name`.
pub open spec fn first_index(ps: Seq<ParameterView>, name: Seq<char>) -> int
    decreases ps.len(),
{
    if ps.len() == 0 {
        -1
    } else if ps[0].name == name {
        0
    } else {
        let r = first_index(ps.drop_first(), name);
        if r < 0 {
            -1
        } else {
            r + 1
        }
    }
}

/// Whether the shared parameters (at least two) appear at different positions.
pub open spec fn params_reordered(old: Seq<ParameterView>, new: Seq<ParameterView>) -> bool {
    let c = common_names(old, new);
    c.len() >= 2 && c.map_values(|n: Seq<char>| first_index(old, n)) != c.map_values(
        |n: Seq<char>| first_index(new, n),
    )
}

pub open spec fn signature_delta_spec(old: SymbolView, new: SymbolView) -> SignatureDeltaView {
    SignatureDeltaView {
        params_added: added_params(old.parameters, new.parameters),
        params_removed: added_params(new.parameters, old.parameters),
        params_reordered: params_reordered(old.parameters, new.parameters),
        return_type_changed: old.return_type != new.return_type,
        old_return_type: old.return_type,
        new_return_type: new.return_type,
    }
}

/// The change between two matched symbols, by priority: moved (and
/// modified), renamed, signature changed, visibility changed, body changed.
pub open spec fn classify_spec(old: SymbolView, new: SymbolView) -> ChangeKindView {
    if old.file_path != new.file_path && old.body_hash != new.body_hash {
        ChangeKindView::MovedAndModified { from_file: old.file_path, to_file: new.file_path }
    } else if old.file_path != new.file_path {
        ChangeKindView::Moved { from_file: old.file_path, to_file: new.file_path }
    } else if old.name != new.name {
        ChangeKindView::Renamed { old_name: old.name, new_name: new.name }
    } else if old.normalized_signature() != new.normalized_signature() {
        ChangeKindView::SignatureChanged { details: signature_delta_spec(old, new) }
    } else if old.visibility != new.visibility {
        ChangeKindView::VisibilityChanged { old: old.visibility, new: new.visibility }
    } else {
        ChangeKindView::BodyChanged
    }
}

/// The details of a signature change: the parameters of `new` whose names
/// `old` lacks, those of `old` whose names `new` lacks, and the return types.
pub open spec fn details_describe(old: SymbolView, new: SymbolView, d: SignatureDeltaView) -> bool {
    &&& d.return_type_changed == (old.return_type != new.return_type)
    &&& d.old_return_type == old.return_type
    &&& d.new_return_type == new.return_type
    &&& forall|p: ParameterView|
        d.params_added.contains(p) <==> new.parameters.contains(p) && !names_of(old.parameters).contains(p.name)
    &&& forall|p: ParameterView|
        d.params_removed.contains(p) <==> old.parameters.contains(p) && !names_of(new.parameters).contains(p.name)
}

/// Same file, same name, same signature.
pub open spec fn same_place_and_signature(old: SymbolView, new: SymbolView) -> bool {
    old.file_path == new.file_path && old.name == new.name && old.normalized_signature()
        == new.normalized_signature()
}

/// What a matched pair is classified as, from what differs between the two
/// symbols: a change of file is a move (and modification, when the bodies
/// differ); within a file, a new name is a rename; with the same name, a
/// different signature is a signature change whose details list the added
/// and removed parameters and the return types; with the same signature, a
/// different visibility is a visibility change carrying both visibilities;
/// otherwise the body changed.
pub proof fn lemma_classify_by_difference(old: SymbolView, new: SymbolView)
    ensures
        old.file_path != new.file_path && old.body_hash != new.body_hash ==> classify_spec(old, new) == (
        ChangeKindView::MovedAndModified { from_file: old.file_path, to_file: new.file_path }),
        old.file_path != new.file_path && old.body_hash == new.body_hash ==> classify_spec(old, new) == (
        ChangeKindView::Moved { from_file: old.file_path, to_file: new.file_path }),
        old.file_path == new.file_path && old.name != new.name ==> classify_spec(old, new) == (
        ChangeKindView::Renamed { old_name: old.name, new_name: new.name }),
        old.file_path == new.file_path && old.name == new.name && old.normalized_signature()
            != new.normalized_signature() ==> (classify_spec(old, new) is SignatureChanged
            && details_describe(old, new, classify_spec(old, new)->details)),
        same_place_and_signature(old, new) && old.visibility != new.visibility ==> classify_spec(old, new) == (
        ChangeKindView::VisibilityChanged { old: old.visibility, new: new.visibility }),
        same_place_and_signature(old, new) && old.visibility == new.visibility ==> classify_spec(old, new)
            == ChangeKindView::BodyChanged,
{
    let pa = |p: ParameterView| !names_of(old.parameters).contains(p.name);
    let pr = |p: ParameterView| !names_of(new.parameters).contains(p.name);
    assert forall|p: ParameterView|
        added_params(old.parameters, new.parameters).contains(p) <==> new.parameters.contains(p) && !names_of(
            old.parameters,
        ).contains(p.name) by {
        if added_params(old.parameters, new.parameters).contains(p) {
            new.parameters.lemma_filter_contains_rev(pa, p);
            let i = choose|i: int|
                0 <= i < new.parameters.filter(pa).len() && new.parameters.filter(pa)[i] == p;
            new.parameters.lemma_filter_pred(pa, i);
        }
        if new.parameters.contains(p) && pa(p) {
            let i = choose|i: int| 0 <= i < new.parameters.len() && new.parameters[i] == p;
            new.parameters.lemma_filter_contains(pa, i);
        }
    }
    assert forall|p: ParameterView|
        added_params(new.parameters, old.parameters).contains(p) <==> old.parameters.contains(p) && !names_of(
            new.parameters,
        ).contains(p.name) by {
        if added_params(new.parameters, old.parameters).contains(p) {
            old.parameters.lemma_filter_contains_rev(pr, p);
            let i = choose|i: int|
                0 <= i < old.parameters.filter(pr).len() && old.parameters.filter(pr)[i] == p;
            old.parameters.lemma_filter_pred(pr, i);
        }
        if old.parameters.contains(p) && pr(p) {
            let i = choose|i: int| 0 <= i < old.parameters.len() && old.parameters[i] == p;
            old.parameters.lemma_filter_contains(pr, i);
        }
    }
}

fn param_names(ps: &Vec<Parameter>) -> (r: Vec<String>)
    ensures
        r@.map_values(|s: String| s@) == names_of(params_view(ps@)),
{
    let mut out: Vec<String> = Vec::new();
    let mut i: usize = 0;
    while i < ps.len()
        invariant
            i <= ps.len(),
            out@.map_values(|s: String| s@) == names_of(params_view(ps@)).take(i as int),
        decreases ps.len() - i,
    {
        let ghost prev = out@;
        out.push(ps[i].name.clone());
        proof {
            assert(out@.map_values(|s: String| s@) =~= prev.map_values(|s: String| s@).push(
                ps@[i as int].name@,
            ));
            assert(names_of(params_view(ps@)).take(i + 1) =~= names_of(params_view(ps@)).take(
                i as int,
            ).push(ps@[i as int].name@));
        }
        i = i + 1;
    }
    proof {
        assert(names_of(params_view(ps@)).take(ps.len() as int) =~= names_of(params_view(ps@)));
    }
    out
}

fn has_name(names: &Vec<String>, n: &String) -> (r: bool)
    ensures
        r == names@.map_values(|s: String| s@).contains(n@),
{
    let ghost v = names@.map_values(|s: String| s@);
    let mut i: usize = 0;
    while i < names.len()
        invariant
            i <= names.len(),
            v == names@.map_values(|s: String| s@),
            forall|k: int| 0 <= k < i ==> v[k] != n@,
        decreases names.len() - i,
    {
        if names[i] == *n {
            assert(v[i as int] == n@);
            return true;
        }
        i = i + 1;
    }
    false
}

/// Parameters of `new` whose names do not occur in `old_names`.
fn params_not_in(new: &Vec<Parameter>, old_names: &Vec<String>) -> (r: Vec<Parameter>)
    ensures
        params_view(r@) == params_view(new@).filter(
            |p: ParameterView| !old_names@.map_values(|s: String| s@).contains(p.name),
        ),
{
    let ghost on = old_names@.map_values(|s: String| s@);
    let ghost nv = params_view(new@);
    let mut out: Vec<Parameter> = Vec::new();
    let mut i: usize = 0;
    while i < new.len()
        invariant
            i <= new.len(),
            nv == params_view(new@),
            on == old_names@.map_values(|s: String| s@),
            params_view(out@) == nv.take(i as int).filter(|p: ParameterView| !on.contains(p.name)),
        decreases new.len() - i,
    {
        proof {
            assert(nv.take(i + 1).drop_last() =~= nv.take(i as int));
            reveal_with_fuel(Seq::filter, 1);
        }
        let ghost prev = out@;
        if !has_name(old_names, &new[i].name) {
            let p = new[i].duplicate();
            out.push(p);
            proof {
                assert(params_view(out@) =~= params_view(prev).push(p@));
            }
        }
        i = i + 1;
    }
    proof {
        assert(nv.take(new.len() as int) =~= nv);
    }
    out
}

fn find_first_index(ps: &Vec<Parameter>, name: &String) -> (r: usize)
    requires
        first_index(params_view(ps@), name@) >= 0,
    ensures
        r as int == first_index(params_view(ps@), name@),
{
    let ghost pv = params_view(ps@);
    proof {
        assert(pv.skip(0) =~= pv);
    }
    let mut i: usize = 0;
    while i < ps.len()
        invariant
            i <= ps.len(),
            pv == params_view(ps@),
            first_index(pv, name@) >= 0,
            first_index(pv, name@) == first_index(pv.skip(i as int), name@) + i,
            first_index(pv.skip(i as int), name@) >= 0,
        decreases ps.len() - i,
    {
        proof {
            assert(pv.skip(i as int).drop_first() =~= pv.skip(i + 1));
        }
        if ps[i].name == *name {
            return i;
        }
        i = i + 1;
    }
    proof {
        assert(pv.skip(ps.len() as int).len() == 0);
    }
    0
}

proof fn lemma_first_index_found(ps: Seq<ParameterView>, name: Seq<char>)
    requires
        names_of(ps).contains(name),
    ensures
        0 <= first_index(ps, name) < ps.len(),
    decreases ps.len(),
{
    let k = choose|k: int| 0 <= k < names_of(ps).len() && names_of(ps)[k] == name;
    if ps[0].name != name {
        assert(names_of(ps.drop_first())[k - 1] == name);
        lemma_first_index_found(ps.drop_first(), name);
    }
}

/// The parameter-level difference between two signatures.
fn compute_signature_delta(old: &Symbol, new: &Symbol) -> (r: SignatureDelta)
    ensures
        r@ == signature_delta_spec(old@, new@),
{
    let old_names = param_names(&old.parameters);
    let new_names = param_names(&new.parameters);
    let params_added = params_not_in(&new.parameters, &old_names);
    let params_removed = params_not_in(&old.parameters, &new_names);
    let ghost ov = params_view(old.parameters@);
    let ghost nv = params_view(new.parameters@);
    let ghost nn = new_names@.map_values(|s: String| s@);
    // names of old parameters that new also has
    let mut common: Vec<String> = Vec::new();
    let mut i: usize = 0;
    while i < old.parameters.len()
        invariant
            i <= old.parameters.len(),
            ov == params_view(old.parameters@),
            nn == new_names@.map_values(|s: String| s@),
            nn == names_of(nv),
            common@.map_values(|s: String| s@) == names_of(
                ov.take(i as int).filter(|p: ParameterView| nn.contains(p.name)),
            ),
        decreases old.parameters.len() - i,
    {
        proof {
            assert(ov.take(i + 1).drop_last() =~= ov.take(i as int));
            reveal_with_fuel(Seq::filter, 1);
        }
        let ghost prev = common@;
        if has_name(&new_names, &old.parameters[i].name) {
            common.push(old.parameters[i].name.clone());
            proof {
                assert(common@.map_values(|s: String| s@) =~= prev.map_values(|s: String| s@).push(
                    ov[i as int].name,
                ));
            }
        }
        proof {
            let f = ov.take(i + 1).filter(|p: ParameterView| nn.contains(p.name));
            let g = ov.take(i as int).filter(|p: ParameterView| nn.contains(p.name));
            if nn.contains(ov[i as int].name) {
                assert(f =~= g.push(ov[i as int]));
                assert(names_of(f) =~= names_of(g).push(ov[i as int].name));
            } else {
                assert(f =~= g);
            }
        }
        i = i + 1;
    }
    proof {
        assert(ov.take(old.parameters.len() as int) =~= ov);
    }
    let ghost cn = common@.map_values(|s: String| s@);
    let mut reordered = false;
    if common.len() >= 2 {
        let mut same = true;
        let mut k: usize = 0;
        while k < common.len()
            invariant
                k <= common.len(),
                cn == common@.map_values(|s: String| s@),
                cn == common_names(ov, nv),
                ov == params_view(old.parameters@),
                nv == params_view(new.parameters@),
                same == (forall|t: int|
                    0 <= t < k ==> first_index(ov, cn[t]) == first_index(nv, cn[t])),
            decreases common.len() - k,
        {
            proof {
                // every common name occurs in both parameter lists
                let nm = cn[k as int];
                let fo = ov.filter(|p: ParameterView| names_of(nv).contains(p.name));
                assert(cn.len() == common.len());
                assert(names_of(fo).len() == fo.len());
                assert(names_of(fo)[k as int] == nm);
                assert(fo.contains(fo[k as int]));
                ov.lemma_filter_contains_rev(
                    |p: ParameterView| names_of(nv).contains(p.name),
                    fo[k as int],
                );
                let w = choose|w: int| 0 <= w < ov.len() && ov[w] == fo[k as int];
                assert(fo[k as int].name == nm);
                assert(names_of(ov)[w] == nm);
                lemma_first_index_found(ov, nm);
                lemma_first_index_found(nv, nm);
            }
            let a = find_first_index(&old.parameters, &common[k]);
            let b = find_first_index(&new.parameters, &common[k]);
            if a != b {
                same = false;
            }
            k = k + 1;
        }
        reordered = !same;
        proof {
            let l = cn.map_values(|n: Seq<char>| first_index(ov, n));
            let r = cn.map_values(|n: Seq<char>| first_index(nv, n));
            if same {
                assert(l =~= r);
            } else {
                let t = choose|t: int|
                    0 <= t < cn.len() && first_index(ov, cn[t]) != first_index(nv, cn[t]);
                assert(l[t] != r[t]);
            }
        }
    }
    let return_type_changed = !opt_eq(&old.return_type, &new.return_type);
    SignatureDelta {
        params_added,
        params_removed,
        params_reordered: reordered,
        return_type_changed,
        old_return_type: copy_opt(&old.return_type),
        new_return_type: copy_opt(&new.return_type),
    }
}

/// Classifies the change between two matched symbols.
pub fn classify(old: &Symbol, new: &Symbol) -> (r: ChangeKind)
    ensures
        r@ == classify_spec(old@, new@),
{
    let file_changed = !(old.file_path == new.file_path);
    let body_changed = !hash_eq(&old.body_hash, &new.body_hash);
    if file_changed && body_changed {
        return ChangeKind::MovedAndModified {
            from_file: old.file_path.clone(),
            to_file: new.file_path.clone(),
        };
    }
    if file_changed {
        return ChangeKind::Moved { from_file: old.file_path.clone(), to_file: new.file_path.clone() };
    }
    if !(old.name == new.name) {
        return ChangeKind::Renamed { old_name: old.name.clone(), new_name: new.name.clone() };
    }
    if old.signature_differs(new) {
        return ChangeKind::SignatureChanged { details: compute_signature_delta(old, new) };
    }
    if old.visibility != new.visibility {
        return ChangeKind::VisibilityChanged { old: old.visibility, new: new.visibility };
    }
    ChangeKind::BodyChanged
}

} // verus!
