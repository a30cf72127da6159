//! Semantic changes and their classification.
use vstd::prelude::*;

use crate::ast::symbol::{
    copy_opt, copy_params, opt_view, params_view, Parameter, ParameterView, Symbol, SymbolView,
    Visibility,
};
use crate::diff::body_diff::{BodyDiff, LineView};
use crate::diff::intent::{IntentClassification, IntentView};
use crate::ratio::Ratio;
use crate::text::{join, join_strings, push_str, usize_to_string, decimal};

verus! {

#[derive(Debug)]
pub struct SignatureDelta {
    pub params_added: Vec<Parameter>,
    pub params_removed: Vec<Parameter>,
    pub params_reordered: bool,
    pub return_type_changed: bool,
    pub old_return_type: Option<String>,
    pub new_return_type: Option<String>,
}

pub struct SignatureDeltaView {
    pub params_added: Seq<ParameterView>,
    pub params_removed: Seq<ParameterView>,
    pub params_reordered: bool,
    pub return_type_changed: bool,
    pub old_return_type: Option<Seq<char>>,
    pub new_return_type: Option<Seq<char>>,
}

impl View for SignatureDelta {
    type V = SignatureDeltaView;

    open spec fn view(&self) -> SignatureDeltaView {
        SignatureDeltaView {
            params_added: params_view(self.params_added@),
            params_removed: params_view(self.params_removed@),
            params_reordered: self.params_reordered,
            return_type_changed: self.return_type_changed,
            old_return_type: opt_view(self.old_return_type),
            new_return_type: opt_view(self.new_return_type),
        }
    }
}

impl SignatureDelta {
    /// A copy of this delta.
    pub fn duplicate(&self) -> (r: SignatureDelta)
        ensures
            r@ == self@,
    {
        SignatureDelta {
            params_added: copy_params(&self.params_added),
            params_removed: copy_params(&self.params_removed),
            params_reordered: self.params_reordered,
            return_type_changed: self.return_type_changed,
            old_return_type: copy_opt(&self.old_return_type),
            new_return_type: copy_opt(&self.new_return_type),
        }
    }
}

#[derive(Debug)]
pub enum ChangeKind {
    Added,
    Deleted,
    Renamed { old_name: String, new_name: String },
    Moved { from_file: String, to_file: String },
    MovedAndModified { from_file: String, to_file: String },
    Extracted { from_symbol: String, new_symbol: String, source_file: String },
    Inlined { from_symbol: String, into_symbol: String },
    SignatureChanged { details: SignatureDelta },
    BodyChanged,
    VisibilityChanged { old: Visibility, new: Visibility },
}

pub enum ChangeKindView {
    Added,
    Deleted,
    Renamed { old_name: Seq<char>, new_name: Seq<char> },
    Moved { from_file: Seq<char>, to_file: Seq<char> },
    MovedAndModified { from_file: Seq<char>, to_file: Seq<char> },
    Extracted { from_symbol: Seq<char>, new_symbol: Seq<char>, source_file: Seq<char> },
    Inlined { from_symbol: Seq<char>, into_symbol: Seq<char> },
    SignatureChanged { details: SignatureDeltaView },
    BodyChanged,
    VisibilityChanged { old: Visibility, new: Visibility },
}

impl View for ChangeKind {
    type V = ChangeKindView;

    open spec fn view(&self) -> ChangeKindView {
        match self {
            ChangeKind::Added => ChangeKindView::Added,
            ChangeKind::Deleted => ChangeKindView::Deleted,
            ChangeKind::Renamed { old_name, new_name } => ChangeKindView::Renamed {
                old_name: old_name@,
                new_name: new_name@,
            },
            ChangeKind::Moved { from_file, to_file } => ChangeKindView::Moved {
                from_file: from_file@,
                to_file: to_file@,
            },
            ChangeKind::MovedAndModified { from_file, to_file } => ChangeKindView::MovedAndModified {
                from_file: from_file@,
                to_file: to_file@,
            },
            ChangeKind::Extracted { from_symbol, new_symbol, source_file } =>
                ChangeKindView::Extracted {
                from_symbol: from_symbol@,
                new_symbol: new_symbol@,
                source_file: source_file@,
            },
            ChangeKind::Inlined { from_symbol, into_symbol } => ChangeKindView::Inlined {
                from_symbol: from_symbol@,
                into_symbol: into_symbol@,
            },
            ChangeKind::SignatureChanged { details } => ChangeKindView::SignatureChanged {
                details: details@,
            },
            ChangeKind::BodyChanged => ChangeKindView::BodyChanged,
            ChangeKind::VisibilityChanged { old, new } => ChangeKindView::VisibilityChanged {
                old: *old,
                new: *new,
            },
        }
    }
}

impl ChangeKindView {
    pub open spec fn label(self) -> Seq<char> {
        match self {
            ChangeKindView::Added => "ADD"@,
            ChangeKindView::Deleted => "DEL"@,
            ChangeKindView::Renamed { .. } => "REN"@,
            ChangeKindView::Moved { .. } => "MOV"@,
            ChangeKindView::MovedAndModified { .. } => "M+M"@,
            ChangeKindView::Extracted { .. } => "EXT"@,
            ChangeKindView::Inlined { .. } => "INL"@,
            ChangeKindView::SignatureChanged { .. } => "SIG"@,
            ChangeKindView::BodyChanged => "MOD"@,
            ChangeKindView::VisibilityChanged { .. } => "VIS"@,
        }
    }

    /// The summary category: 0 added, 1 deleted, 2 renamed, 3 moved,
    /// 4 extracted, 5 inlined, 6 modified, 7 signature changed.
    pub open spec fn category(self) -> int {
        match self {
            ChangeKindView::Added => 0,
            ChangeKindView::Deleted => 1,
            ChangeKindView::Renamed { .. } => 2,
            ChangeKindView::Moved { .. } => 3,
            ChangeKindView::MovedAndModified { .. } => 3,
            ChangeKindView::Extracted { .. } => 4,
            ChangeKindView::Inlined { .. } => 5,
            ChangeKindView::SignatureChanged { .. } => 7,
            ChangeKindView::BodyChanged => 6,
            ChangeKindView::VisibilityChanged { .. } => 6,
        }
    }

    /// A one-line description of the change.
    pub open spec fn description(self) -> Seq<char> {
        match self {
            ChangeKindView::Added => "new symbol"@,
            ChangeKindView::Deleted => "removed"@,
            ChangeKindView::Renamed { old_name, new_name } => old_name + " -> "@ + new_name,
            ChangeKindView::Moved { from_file, to_file } => from_file + " -> "@ + to_file,
            ChangeKindView::MovedAndModified { from_file, to_file } => from_file + " -> "@ + to_file
                + " (modified)"@,
            ChangeKindView::Extracted { from_symbol, new_symbol, .. } => "extracted from "@
                + from_symbol + " as "@ + new_symbol,
            ChangeKindView::Inlined { from_symbol, into_symbol } => from_symbol
                + " inlined into "@ + into_symbol,
            ChangeKindView::SignatureChanged { details } => join(signature_parts(details), ", "@),
            ChangeKindView::BodyChanged => "body modified"@,
            ChangeKindView::VisibilityChanged { old, new } => old.text() + " -> "@ + new.text(),
        }
    }
}

/// `+Nparams`, `-Nparams` and `ret changed`, for the parts that apply.
pub open spec fn signature_parts(d: SignatureDeltaView) -> Seq<Seq<char>> {
    let a: Seq<Seq<char>> = if d.params_added.len() > 0 {
        seq!["+"@ + decimal(d.params_added.len()) + "params"@]
    } else {
        Seq::empty()
    };
    let b: Seq<Seq<char>> = if d.params_removed.len() > 0 {
        seq!["-"@ + decimal(d.params_removed.len()) + "params"@]
    } else {
        Seq::empty()
    };
    let c: Seq<Seq<char>> = if d.return_type_changed {
        seq!["ret changed"@]
    } else {
        Seq::empty()
    };
    a + b + c
}

fn counted_text(sign: &str, n: usize) -> (r: String)
    ensures
        r@ == sign@ + decimal(n as nat) + "params"@,
{
    let mut s = String::new();
    push_str(&mut s, sign);
    let digits = usize_to_string(n);
    push_str(&mut s, digits.as_str());
    push_str(&mut s, "params");
    s
}

impl ChangeKind {
    /// A copy of this change kind.
    pub fn duplicate(&self) -> (r: ChangeKind)
        ensures
            r@ == self@,
    {
        match self {
            ChangeKind::Added => ChangeKind::Added,
            ChangeKind::Deleted => ChangeKind::Deleted,
            ChangeKind::Renamed { old_name, new_name } => ChangeKind::Renamed {
                old_name: old_name.clone(),
                new_name: new_name.clone(),
            },
            ChangeKind::Moved { from_file, to_file } => ChangeKind::Moved {
                from_file: from_file.clone(),
                to_file: to_file.clone(),
            },
            ChangeKind::MovedAndModified { from_file, to_file } => ChangeKind::MovedAndModified {
                from_file: from_file.clone(),
                to_file: to_file.clone(),
            },
            ChangeKind::Extracted { from_symbol, new_symbol, source_file } =>
                ChangeKind::Extracted {
                from_symbol: from_symbol.clone(),
                new_symbol: new_symbol.clone(),
                source_file: source_file.clone(),
            },
            ChangeKind::Inlined { from_symbol, into_symbol } => ChangeKind::Inlined {
                from_symbol: from_symbol.clone(),
                into_symbol: into_symbol.clone(),
            },
            ChangeKind::SignatureChanged { details } => ChangeKind::SignatureChanged {
                details: details.duplicate(),
            },
            ChangeKind::BodyChanged => ChangeKind::BodyChanged,
            ChangeKind::VisibilityChanged { old, new } => ChangeKind::VisibilityChanged {
                old: *old,
                new: *new,
            },
        }
    }

    /// The three-letter tag of the change.
    pub fn label(&self) -> (r: &'static str)
        ensures
            r@ == self@.label(),
    {
        match self {
            ChangeKind::Added => "ADD",
            ChangeKind::Deleted => "DEL",
            ChangeKind::Renamed { .. } => "REN",
            ChangeKind::Moved { .. } => "MOV",
            ChangeKind::MovedAndModified { .. } => "M+M",
            ChangeKind::Extracted { .. } => "EXT",
            ChangeKind::Inlined { .. } => "INL",
            ChangeKind::SignatureChanged { .. } => "SIG",
            ChangeKind::BodyChanged => "MOD",
            ChangeKind::VisibilityChanged { .. } => "VIS",
        }
    }

    /// A one-line description of the change.
    pub fn short_description(&self) -> (r: String)
        ensures
            r@ == self@.description(),
    {
        let mut s = String::new();
        match self {
            ChangeKind::Added => push_str(&mut s, "new symbol"),
            ChangeKind::Deleted => push_str(&mut s, "removed"),
            ChangeKind::Renamed { old_name, new_name } => {
                push_str(&mut s, old_name.as_str());
                push_str(&mut s, " -> ");
                push_str(&mut s, new_name.as_str());
            },
            ChangeKind::Moved { from_file, to_file } => {
                push_str(&mut s, from_file.as_str());
                push_str(&mut s, " -> ");
                push_str(&mut s, to_file.as_str());
            },
            ChangeKind::MovedAndModified { from_file, to_file } => {
                push_str(&mut s, from_file.as_str());
                push_str(&mut s, " -> ");
                push_str(&mut s, to_file.as_str());
                push_str(&mut s, " (modified)");
            },
            ChangeKind::Extracted { from_symbol, new_symbol, .. } => {
                push_str(&mut s, "extracted from ");
                push_str(&mut s, from_symbol.as_str());
                push_str(&mut s, " as ");
                push_str(&mut s, new_symbol.as_str());
            },
            ChangeKind::Inlined { from_symbol, into_symbol } => {
                push_str(&mut s, from_symbol.as_str());
                push_str(&mut s, " inlined into ");
                push_str(&mut s, into_symbol.as_str());
            },
            ChangeKind::SignatureChanged { details } => {
                let mut parts: Vec<String> = Vec::new();
                if details.params_added.len() > 0 {
                    parts.push(counted_text("+", details.params_added.len()));
                }
                if details.params_removed.len() > 0 {
                    parts.push(counted_text("-", details.params_removed.len()));
                }
                if details.return_type_changed {
                    parts.push(String::from_str("ret changed"));
                }
                let joined = join_strings(&parts, ", ");
                proof {
                    assert(parts@.map_values(|p: String| p@) =~= signature_parts(details@));
                }
                push_str(&mut s, joined.as_str());
            },
            ChangeKind::BodyChanged => push_str(&mut s, "body modified"),
            ChangeKind::VisibilityChanged { old, new } => {
                push_str(&mut s, old.as_text());
                push_str(&mut s, " -> ");
                push_str(&mut s, new.as_text());
            },
        }
        s
    }
}

pub open spec fn opt_sym_view(o: Option<Symbol>) -> Option<SymbolView> {
    match o {
        Some(s) => Some(s@),
        None => None,
    }
}

/// One semantic change between the old and the new version.
#[derive(Debug)]
pub struct SemanticChange {
    pub id: usize,
    pub kind: ChangeKind,
    pub old_symbol: Option<Symbol>,
    pub new_symbol: Option<Symbol>,
    pub confidence: Ratio,
    pub body_diff: Option<BodyDiff>,
    pub related_changes: Vec<usize>,
    pub intent: Option<IntentClassification>,
}

/// The name of the symbol a change is about: the new symbol's name, else
/// the old one's, else `<unknown>`.
pub open spec fn change_symbol_name(
    old: Option<SymbolView>,
    new: Option<SymbolView>,
) -> Seq<char> {
    match new {
        Some(n) => n.name,
        None => match old {
            Some(o) => o.name,
            None => "<unknown>"@,
        },
    }
}

/// Where a change happened: `old -> new` when the file changed, else the
/// file of the new (or old) symbol, else empty.
pub open spec fn change_file_info(old: Option<SymbolView>, new: Option<SymbolView>) -> Seq<char> {
    match (old, new) {
        (Some(o), Some(n)) => if crate::repo::impact::path_parts(o.file_path)
            != crate::repo::impact::path_parts(n.file_path) {
            o.file_path + " -> "@ + n.file_path
        } else {
            n.file_path
        },
        (None, Some(n)) => n.file_path,
        (Some(o), None) => o.file_path,
        (None, None) => Seq::empty(),
    }
}

/// A semantic change as plain values.
pub struct ChangeView {
    pub id: usize,
    pub kind: ChangeKindView,
    pub old_symbol: Option<SymbolView>,
    pub new_symbol: Option<SymbolView>,
    pub confidence: Ratio,
    pub body_diff: Option<Seq<LineView>>,
    pub related_changes: Seq<usize>,
    pub intent: Option<IntentView>,
}

pub open spec fn opt_body_view(b: Option<BodyDiff>) -> Option<Seq<LineView>> {
    match b {
        Some(d) => Some(d@),
        None => None,
    }
}

pub open spec fn opt_intent_view(i: Option<IntentClassification>) -> Option<IntentView> {
    match i {
        Some(c) => Some(c@),
        None => None,
    }
}

impl View for SemanticChange {
    type V = ChangeView;

    open spec fn view(&self) -> ChangeView {
        ChangeView {
            id: self.id,
            kind: self.kind@,
            old_symbol: opt_sym_view(self.old_symbol),
            new_symbol: opt_sym_view(self.new_symbol),
            confidence: self.confidence,
            body_diff: opt_body_view(self.body_diff),
            related_changes: self.related_changes@,
            intent: opt_intent_view(self.intent),
        }
    }
}

impl SemanticChange {
    pub open spec fn old_view(self) -> Option<SymbolView> {
        opt_sym_view(self.old_symbol)
    }

    pub open spec fn new_view(self) -> Option<SymbolView> {
        opt_sym_view(self.new_symbol)
    }

    /// The name of the changed symbol.
    pub fn symbol_name(&self) -> (r: &str)
        ensures
            r@ == change_symbol_name(self.old_view(), self.new_view()),
    {
        match &self.new_symbol {
            Some(s) => s.name.as_str(),
            None => match &self.old_symbol {
                Some(s) => s.name.as_str(),
                None => "<unknown>",
            },
        }
    }

    /// The file of the change, or `old -> new` when the two paths differ
    /// (compared by their components).
    pub fn file_info(&self) -> (r: String)
        ensures
            r@ == change_file_info(self.old_view(), self.new_view()),
    {
        let mut s = String::new();
        match &self.old_symbol {
            Some(o) => match &self.new_symbol {
                Some(n) => {
                    let po = crate::repo::impact::path_parts_of(&o.file_path);
                    let pn = crate::repo::impact::path_parts_of(&n.file_path);
                    if !crate::repo::impact::parts_equal(&po, &pn) {
                        push_str(&mut s, o.file_path.as_str());
                        push_str(&mut s, " -> ");
                        push_str(&mut s, n.file_path.as_str());
                    } else {
                        push_str(&mut s, n.file_path.as_str());
                    }
                },
                None => push_str(&mut s, o.file_path.as_str()),
            },
            None => match &self.new_symbol {
                Some(n) => push_str(&mut s, n.file_path.as_str()),
                None => {},
            },
        }
        s
    }
}

#[derive(Debug)]
pub struct DiffResult {
    pub changes: Vec<SemanticChange>,
    pub old_files: Vec<String>,
    pub new_files: Vec<String>,
    pub summary: DiffSummary,
}

#[derive(Debug, Default, Clone, Copy)]
pub struct DiffSummary {
    pub total_changes: usize,
    pub added: usize,
    pub deleted: usize,
    pub renamed: usize,
    pub moved: usize,
    pub extracted: usize,
    pub inlined: usize,
    pub modified: usize,
    pub signature_changed: usize,
}

pub open spec fn kinds_of(changes: Seq<SemanticChange>) -> Seq<ChangeKindView> {
    changes.map_values(|c: SemanticChange| c.kind@)
}

/// Number of changes of summary category `c`.
pub open spec fn count_category(kinds: Seq<ChangeKindView>, c: int) -> nat
    decreases kinds.len(),
{
    if kinds.len() == 0 {
        0
    } else {
        count_category(kinds.drop_last(), c) + if kinds.last().category() == c {
            1nat
        } else {
            0nat
        }
    }
}

impl DiffSummary {
    pub open spec fn counts(self, kinds: Seq<ChangeKindView>) -> bool {
        &&& self.total_changes == kinds.len()
        &&& self.added == count_category(kinds, 0)
        &&& self.deleted == count_category(kinds, 1)
        &&& self.renamed == count_category(kinds, 2)
        &&& self.moved == count_category(kinds, 3)
        &&& self.extracted == count_category(kinds, 4)
        &&& self.inlined == count_category(kinds, 5)
        &&& self.modified == count_category(kinds, 6)
        &&& self.signature_changed == count_category(kinds, 7)
    }

    /// Counts the changes of each category.
    pub fn from_changes(changes: &[SemanticChange]) -> (r: DiffSummary)
        ensures
            r.counts(kinds_of(changes@)),
    {
        let ghost ks = kinds_of(changes@);
        let mut s = DiffSummary {
            total_changes: changes.len(),
            added: 0,
            deleted: 0,
            renamed: 0,
            moved: 0,
            extracted: 0,
            inlined: 0,
            modified: 0,
            signature_changed: 0,
        };
        let mut i: usize = 0;
        while i < changes.len()
            invariant
                i <= changes.len(),
                ks == kinds_of(changes@),
                s.total_changes == changes.len(),
                s.added == count_category(ks.take(i as int), 0),
                s.deleted == count_category(ks.take(i as int), 1),
                s.renamed == count_category(ks.take(i as int), 2),
                s.moved == count_category(ks.take(i as int), 3),
                s.extracted == count_category(ks.take(i as int), 4),
                s.inlined == count_category(ks.take(i as int), 5),
                s.modified == count_category(ks.take(i as int), 6),
                s.signature_changed == count_category(ks.take(i as int), 7),
                s.added + s.deleted + s.renamed + s.moved + s.extracted + s.inlined + s.modified
                    + s.signature_changed == i,
            decreases changes.len() - i,
        {
            proof {
                assert(ks.take(i + 1).drop_last() =~= ks.take(i as int));
                assert(ks.take(i + 1).last() == changes@[i as int].kind@);
            }
            match &changes[i].kind {
                ChangeKind::Added => s.added = s.added + 1,
                ChangeKind::Deleted => s.deleted = s.deleted + 1,
                ChangeKind::Renamed { .. } => s.renamed = s.renamed + 1,
                ChangeKind::Moved { .. } => s.moved = s.moved + 1,
                ChangeKind::MovedAndModified { .. } => s.moved = s.moved + 1,
                ChangeKind::Extracted { .. } => s.extracted = s.extracted + 1,
                ChangeKind::Inlined { .. } => s.inlined = s.inlined + 1,
                ChangeKind::SignatureChanged { .. } => s.signature_changed = s.signature_changed
                    + 1,
                ChangeKind::BodyChanged => s.modified = s.modified + 1,
                ChangeKind::VisibilityChanged { .. } => s.modified = s.modified + 1,
            }
            i = i + 1;
        }
        proof {
            assert(ks.take(changes.len() as int) =~= ks);
        }
        s
    }
}

/// Every change falls in exactly one summary category, so the category
/// counts add up to the total.
pub proof fn lemma_summary_partition(kinds: Seq<ChangeKindView>)
    ensures
        count_category(kinds, 0) + count_category(kinds, 1) + count_category(kinds, 2)
            + count_category(kinds, 3) + count_category(kinds, 4) + count_category(kinds, 5)
            + count_category(kinds, 6) + count_category(kinds, 7) == kinds.len(),
    decreases kinds.len(),
{
    if kinds.len() > 0 {
        lemma_summary_partition(kinds.drop_last());
    }
}

/// The counts of a summary add up to its total number of changes.
pub proof fn lemma_summary_totals(s: DiffSummary, changes: Seq<SemanticChange>)
    requires
        s.counts(kinds_of(changes)),
    ensures
        s.added + s.deleted + s.renamed + s.moved + s.extracted + s.inlined + s.modified
            + s.signature_changed == s.total_changes,
{
    lemma_summary_partition(kinds_of(changes));
}

} // verus!
