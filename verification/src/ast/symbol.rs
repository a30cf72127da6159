//! Symbols (functions, types, constants, ...) extracted from source files.
use vstd::prelude::*;

use crate::ast::levenshtein::{lemma_lev_le_max, lev, levenshtein};
use crate::ratio::Ratio;
use crate::text::{
    byte_len, chars_of, is_whitespace, is_ws, join, join_strings, lemma_bytes_at_least_chars,
    push_char, push_str, string_from_chars, trim, trim_chars,
};

verus! {

#[derive(Debug, Clone, Copy, PartialEq, Eq, Structural, Hash)]
pub enum SymbolKind {
    Function,
    Method,
    Struct,
    Enum,
    Trait,
    Impl,
    Constant,
    TypeAlias,
    Interface,
    Class,
}

impl SymbolKind {
    pub open spec fn text(self) -> Seq<char> {
        match self {
            SymbolKind::Function => "fn"@,
            SymbolKind::Method => "method"@,
            SymbolKind::Struct => "struct"@,
            SymbolKind::Enum => "enum"@,
            SymbolKind::Trait => "trait"@,
            SymbolKind::Impl => "impl"@,
            SymbolKind::Constant => "const"@,
            SymbolKind::TypeAlias => "type"@,
            SymbolKind::Interface => "interface"@,
            SymbolKind::Class => "class"@,
        }
    }

    /// The keyword shown for this kind (`fn`, `struct`, ...).
    pub fn as_text(&self) -> (r: &'static str)
        ensures
            r@ == self.text(),
    {
        match self {
            SymbolKind::Function => "fn",
            SymbolKind::Method => "method",
            SymbolKind::Struct => "struct",
            SymbolKind::Enum => "enum",
            SymbolKind::Trait => "trait",
            SymbolKind::Impl => "impl",
            SymbolKind::Constant => "const",
            SymbolKind::TypeAlias => "type",
            SymbolKind::Interface => "interface",
            SymbolKind::Class => "class",
        }
    }
}

#[derive(Debug, Clone, Copy, PartialEq, Eq, Structural, Hash)]
pub enum Visibility {
    Public,
    Private,
    Crate,
    Unknown,
}

impl Visibility {
    pub open spec fn text(self) -> Seq<char> {
        match self {
            Visibility::Public => "pub"@,
            Visibility::Private => "private"@,
            Visibility::Crate => "pub(crate)"@,
            Visibility::Unknown => ""@,
        }
    }

    /// The text shown for this visibility (`pub`, `private`, `pub(crate)` or empty).
    pub fn as_text(&self) -> (r: &'static str)
        ensures
            r@ == self.text(),
    {
        match self {
            Visibility::Public => "pub",
            Visibility::Private => "private",
            Visibility::Crate => "pub(crate)",
            Visibility::Unknown => "",
        }
    }
}

#[derive(Debug, Clone)]
pub struct Parameter {
    pub name: String,
    pub type_annotation: Option<String>,
}

pub struct ParameterView {
    pub name: Seq<char>,
    pub type_annotation: Option<Seq<char>>,
}

impl View for Parameter {
    type V = ParameterView;

    open spec fn view(&self) -> ParameterView {
        ParameterView { name: self.name@, type_annotation: opt_view(self.type_annotation) }
    }
}

pub open spec fn opt_view(o: Option<String>) -> Option<Seq<char>> {
    match o {
        Some(s) => Some(s@),
        None => None,
    }
}

/// A copy of an optional string.
pub fn copy_opt(o: &Option<String>) -> (r: Option<String>)
    ensures
        opt_view(r) == opt_view(*o),
{
    match o {
        Some(s) => Some(s.clone()),
        None => None,
    }
}

/// Whether two optional strings are equal.
pub fn opt_eq(a: &Option<String>, b: &Option<String>) -> (r: bool)
    ensures
        r == (opt_view(*a) == opt_view(*b)),
{
    match a {
        Some(x) => match b {
            Some(y) => {
                let e = *x == *y;
                proof {
                    if e {
                        assert(opt_view(*a) == opt_view(*b));
                    }
                }
                e
            },
            None => false,
        },
        None => match b {
            Some(_) => false,
            None => true,
        },
    }
}

impl ParameterView {
    /// `name: type` when the type is known, else the name.
    pub open spec fn text(self) -> Seq<char> {
        match self.type_annotation {
            Some(t) => self.name + ": "@ + t,
            None => self.name,
        }
    }
}

impl Parameter {
    /// A copy of this parameter.
    pub fn duplicate(&self) -> (r: Parameter)
        ensures
            r@ == self@,
    {
        Parameter { name: self.name.clone(), type_annotation: copy_opt(&self.type_annotation) }
    }

    /// `name: type` when the type is known, else the name.
    pub fn to_text(&self) -> (r: String)
        ensures
            r@ == self@.text(),
    {
        let mut out = self.name.clone();
        match &self.type_annotation {
            Some(t) => {
                push_str(&mut out, ": ");
                push_str(&mut out, t.as_str());
            },
            None => {},
        }
        out
    }
}

pub open spec fn params_view(ps: Seq<Parameter>) -> Seq<ParameterView> {
    ps.map_values(|p: Parameter| p@)
}

/// A copy of a parameter list.
pub fn copy_params(ps: &Vec<Parameter>) -> (r: Vec<Parameter>)
    ensures
        params_view(r@) == params_view(ps@),
{
    let mut out: Vec<Parameter> = Vec::new();
    let mut i: usize = 0;
    while i < ps.len()
        invariant
            i <= ps.len(),
            params_view(out@) == params_view(ps@.take(i as int)),
        decreases ps.len() - i,
    {
        let ghost prev = out@;
        let d = ps[i].duplicate();
        out.push(d);
        proof {
            assert(ps@.take(i + 1) =~= ps@.take(i as int).push(ps@[i as int]));
            assert(params_view(out@) =~= params_view(prev).push(d@));
            assert(params_view(ps@.take(i + 1)) =~= params_view(ps@.take(i as int)).push(
                ps@[i as int]@,
            ));
        }
        i = i + 1;
    }
    proof {
        assert(ps@.take(ps.len() as int) =~= ps@);
    }
    out
}

#[derive(Debug)]
pub struct Symbol {
    pub kind: SymbolKind,
    pub name: String,
    pub qualified_name: String,
    pub file_path: String,
    pub line_range: (usize, usize),
    pub signature: String,
    pub body_hash: [u8; 32],
    pub body_text: String,
    pub normalized_body: String,
    pub parent: Option<String>,
    pub visibility: Visibility,
    pub parameters: Vec<Parameter>,
    pub return_type: Option<String>,
}

pub struct SymbolView {
    pub kind: SymbolKind,
    pub name: Seq<char>,
    pub qualified_name: Seq<char>,
    pub file_path: Seq<char>,
    pub line_range: (usize, usize),
    pub signature: Seq<char>,
    pub body_hash: Seq<u8>,
    pub body_text: Seq<char>,
    pub normalized_body: Seq<char>,
    pub parent: Option<Seq<char>>,
    pub visibility: Visibility,
    pub parameters: Seq<ParameterView>,
    pub return_type: Option<Seq<char>>,
}

impl View for Symbol {
    type V = SymbolView;

    open spec fn view(&self) -> SymbolView {
        SymbolView {
            kind: self.kind,
            name: self.name@,
            qualified_name: self.qualified_name@,
            file_path: self.file_path@,
            line_range: self.line_range,
            signature: self.signature@,
            body_hash: self.body_hash@,
            body_text: self.body_text@,
            normalized_body: self.normalized_body@,
            parent: opt_view(self.parent),
            visibility: self.visibility,
            parameters: params_view(self.parameters@),
            return_type: opt_view(self.return_type),
        }
    }
}

/// Number of bytes of the UTF-8 encoding of `s`.
pub open spec fn bytes_len(s: Seq<char>) -> nat {
    vstd::utf8::encode_utf8(s).len()
}

/// A text whose byte length fits in `usize`, as that of every string in memory does.
pub open spec fn text_ok(s: Seq<char>) -> bool {
    bytes_len(s) < usize::MAX
}

/// Longest name or normalized body (in bytes, 512 MiB) whose similarity
/// scores can be combined exactly in 64-bit fractions: a similarity's
/// denominator is at most such a length, and the combined name-and-body
/// score multiplies two of them by ten, which stays below `u64::MAX`.
/// The bound follows from what a machine can hold: comparing two texts of
/// this length by edit distance over the full table of prefixes needs
/// 2^58 cells, more memory than any machine addresses, so it excludes no
/// comparison that could be carried out. `Symbol::is_comparable` tests
/// it, so that a caller can report a symbol that is too long to be compared.
pub const COMPARABLE_BYTES: usize = 0x2000_0000;

impl SymbolView {
    /// Name and normalized body have byte lengths that fit in `usize`.
    pub open spec fn wf(self) -> bool {
        text_ok(self.name) && text_ok(self.normalized_body)
    }

    /// Name and normalized body are short enough for the combined
    /// name-and-body score of two symbols to be computed exactly.
    pub open spec fn comparable(self) -> bool {
        bytes_len(self.name) < COMPARABLE_BYTES && bytes_len(self.normalized_body)
            < COMPARABLE_BYTES
    }

    /// The signature compared by `signature_differs`: parameter types (or
    /// names when untyped) and the return type, without the symbol's name.
    pub open spec fn normalized_signature(self) -> Seq<char> {
        "("@ + join(self.parameters.map_values(|p: ParameterView| param_key(p)), ", "@) + ") -> "@
            + match self.return_type {
            Some(r) => r,
            None => Seq::empty(),
        }
    }
}

/// A parameter's type, or its name when it has no type annotation.
pub open spec fn param_key(p: ParameterView) -> Seq<char> {
    match p.type_annotation {
        Some(t) => t,
        None => p.name,
    }
}

/// `1 - distance / longest`, with the byte lengths of the two texts as `longest`.
pub open spec fn text_similarity(a: Seq<char>, b: Seq<char>) -> Ratio {
    let m = if bytes_len(a) >= bytes_len(b) { bytes_len(a) } else { bytes_len(b) };
    Ratio { num: (m - lev(a, b)) as u64, den: m as u64 }
}

/// Body similarity in [0, 1]: identical hashes or two empty bodies give 1,
/// one empty body gives 0, otherwise the edit-distance similarity of the
/// normalized bodies.
pub open spec fn body_similarity_spec(a: SymbolView, b: SymbolView) -> Ratio {
    if a.body_hash == b.body_hash {
        Ratio { num: 1, den: 1 }
    } else if a.normalized_body.len() == 0 && b.normalized_body.len() == 0 {
        Ratio { num: 1, den: 1 }
    } else if a.normalized_body.len() == 0 || b.normalized_body.len() == 0 {
        Ratio { num: 0, den: 1 }
    } else {
        text_similarity(a.normalized_body, b.normalized_body)
    }
}

/// Name similarity in [0, 1]: equal names (or two empty names) give 1,
/// otherwise the edit-distance similarity of the names.
pub open spec fn name_similarity_spec(a: SymbolView, b: SymbolView) -> Ratio {
    if a.name == b.name {
        Ratio { num: 1, den: 1 }
    } else if bytes_len(a.name) == 0 && bytes_len(b.name) == 0 {
        Ratio { num: 1, den: 1 }
    } else {
        text_similarity(a.name, b.name)
    }
}

/// Whether two 32-byte hashes are equal.
pub fn hash_eq(a: &[u8; 32], b: &[u8; 32]) -> (r: bool)
    ensures
        r == (a@ == b@),
{
    let mut i: usize = 0;
    while i < 32
        invariant
            i <= 32,
            a@.len() == 32,
            b@.len() == 32,
            forall|k: int| 0 <= k < i ==> a@[k] == b@[k],
        decreases 32 - i,
    {
        if a[i] != b[i] {
            return false;
        }
        i = i + 1;
    }
    proof {
        assert(a@ =~= b@);
    }
    true
}

/// Similarities of comparable symbols have small denominators.
pub proof fn lemma_similarity_small(a: SymbolView, b: SymbolView)
    requires
        a.comparable(),
        b.comparable(),
    ensures
        body_similarity_spec(a, b).den < COMPARABLE_BYTES,
        name_similarity_spec(a, b).den < COMPARABLE_BYTES,
        body_similarity_spec(a, b).num <= body_similarity_spec(a, b).den,
        name_similarity_spec(a, b).num <= name_similarity_spec(a, b).den,
        body_similarity_spec(a, b).wf(),
        name_similarity_spec(a, b).wf(),
{
    lemma_bytes_at_least_chars(a.name);
    lemma_bytes_at_least_chars(b.name);
    lemma_bytes_at_least_chars(a.normalized_body);
    lemma_bytes_at_least_chars(b.normalized_body);
    lemma_lev_le_max(a.name, b.name);
    lemma_lev_le_max(a.normalized_body, b.normalized_body);
}

proof fn lemma_similarity_wf(a: Seq<char>, b: Seq<char>)
    requires
        text_ok(a),
        text_ok(b),
        bytes_len(a) > 0 || bytes_len(b) > 0,
    ensures
        text_similarity(a, b).wf(),
        text_similarity(a, b).num <= text_similarity(a, b).den,
{
    lemma_bytes_at_least_chars(a);
    lemma_bytes_at_least_chars(b);
    lemma_lev_le_max(a, b);
}

/// Edit-distance similarity of two texts of which at least one is non-empty.
fn edit_similarity(a: &String, b: &String) -> (r: Ratio)
    requires
        text_ok(a@),
        text_ok(b@),
        bytes_len(a@) > 0 || bytes_len(b@) > 0,
    ensures
        r == text_similarity(a@, b@),
        r.wf(),
        r.num <= r.den,
{
    proof {
        lemma_similarity_wf(a@, b@);
        lemma_bytes_at_least_chars(a@);
        lemma_bytes_at_least_chars(b@);
        lemma_lev_le_max(a@, b@);
    }
    let ac = chars_of(a.as_str());
    let bc = chars_of(b.as_str());
    let d = levenshtein(ac.as_slice(), bc.as_slice());
    let la = byte_len(a.as_str());
    let lb = byte_len(b.as_str());
    let m = if la >= lb { la } else { lb };
    Ratio { num: (m - d) as u64, den: m as u64 }
}

impl Symbol {
    /// A copy of this symbol.
    pub fn duplicate(&self) -> (r: Symbol)
        ensures
            r@ == self@,
    {
        Symbol {
            kind: self.kind,
            name: self.name.clone(),
            qualified_name: self.qualified_name.clone(),
            file_path: self.file_path.clone(),
            line_range: self.line_range,
            signature: self.signature.clone(),
            body_hash: self.body_hash,
            body_text: self.body_text.clone(),
            normalized_body: self.normalized_body.clone(),
            parent: copy_opt(&self.parent),
            visibility: self.visibility,
            parameters: copy_params(&self.parameters),
            return_type: copy_opt(&self.return_type),
        }
    }

    /// Whether the symbol's name and normalized body are short enough for
    /// exact score arithmetic.
    pub fn is_comparable(&self) -> (r: bool)
        ensures
            r == self@.comparable(),
    {
        byte_len(self.name.as_str()) < COMPARABLE_BYTES && byte_len(self.normalized_body.as_str())
            < COMPARABLE_BYTES
    }

    /// Body similarity with another symbol, in [0, 1].
    pub fn body_similarity(&self, other: &Symbol) -> (r: Ratio)
        requires
            self@.wf(),
            other@.wf(),
        ensures
            r == body_similarity_spec(self@, other@),
            r.wf(),
            r.num <= r.den,
    {
        if hash_eq(&self.body_hash, &other.body_hash) {
            return Ratio::one();
        }
        let a_empty = self.normalized_body.as_str().is_empty();
        let b_empty = other.normalized_body.as_str().is_empty();
        if a_empty && b_empty {
            return Ratio::one();
        }
        if a_empty || b_empty {
            return Ratio::zero();
        }
        proof {
            lemma_bytes_at_least_chars(self@.normalized_body);
        }
        edit_similarity(&self.normalized_body, &other.normalized_body)
    }

    /// Name similarity with another symbol, in [0, 1].
    pub fn name_similarity(&self, other: &Symbol) -> (r: Ratio)
        requires
            self@.wf(),
            other@.wf(),
        ensures
            r == name_similarity_spec(self@, other@),
            r.wf(),
            r.num <= r.den,
    {
        if self.name == other.name {
            return Ratio::one();
        }
        let la = byte_len(self.name.as_str());
        let lb = byte_len(other.name.as_str());
        if la == 0 && lb == 0 {
            return Ratio::one();
        }
        edit_similarity(&self.name, &other.name)
    }

    /// The parameter types and return type, without the name.
    pub fn normalize_signature(&self) -> (r: String)
        ensures
            r@ == self@.normalized_signature(),
    {
        let mut keys: Vec<String> = Vec::new();
        let mut i: usize = 0;
        while i < self.parameters.len()
            invariant
                i <= self.parameters.len(),
                keys@.len() == i,
                forall|k: int|
                    0 <= k < i ==> #[trigger] keys@[k]@ == param_key(self.parameters@[k]@),
            decreases self.parameters.len() - i,
        {
            let p = &self.parameters[i];
            let key = match &p.type_annotation {
                Some(t) => t.clone(),
                None => p.name.clone(),
            };
            keys.push(key);
            i = i + 1;
        }
        let joined = join_strings(&keys, ", ");
        proof {
            assert(keys@.map_values(|p: String| p@) =~= self@.parameters.map_values(
                |p: ParameterView| param_key(p),
            ));
        }
        let mut out = String::new();
        push_str(&mut out, "(");
        push_str(&mut out, joined.as_str());
        push_str(&mut out, ") -> ");
        match &self.return_type {
            Some(r) => push_str(&mut out, r.as_str()),
            None => {},
        }
        out
    }

    /// Whether the signatures differ, ignoring the names.
    pub fn signature_differs(&self, other: &Symbol) -> (r: bool)
        ensures
            r == (self@.normalized_signature() != other@.normalized_signature()),
    {
        let a = self.normalize_signature();
        let b = other.normalize_signature();
        !(a == b)
    }
}

/// `name(params) -> ret`, or `name(params)` without a return type.
pub open spec fn signature_text(
    name: Seq<char>,
    params: Seq<ParameterView>,
    ret: Option<Seq<char>>,
) -> Seq<char> {
    let ps = join(params.map_values(|p: ParameterView| p.text()), ", "@);
    match ret {
        Some(r) => name + "("@ + ps + ") -> "@ + r,
        None => name + "("@ + ps + ")"@,
    }
}

/// Builds the display signature of a function.
pub fn build_signature(name: &str, params: &Vec<Parameter>, return_type: &Option<String>) -> (r:
    String)
    ensures
        r@ == signature_text(name@, params_view(params@), opt_view(*return_type)),
{
    let mut texts: Vec<String> = Vec::new();
    let mut i: usize = 0;
    while i < params.len()
        invariant
            i <= params.len(),
            texts@.len() == i,
            forall|k: int| 0 <= k < i ==> #[trigger] texts@[k]@ == params@[k]@.text(),
        decreases params.len() - i,
    {
        texts.push(params[i].to_text());
        i = i + 1;
    }
    let joined = join_strings(&texts, ", ");
    proof {
        assert(texts@.map_values(|p: String| p@) =~= params_view(params@).map_values(
            |p: ParameterView| p.text(),
        ));
    }
    let mut out = String::new();
    push_str(&mut out, name);
    push_str(&mut out, "(");
    push_str(&mut out, joined.as_str());
    match return_type {
        Some(ret) => {
            push_str(&mut out, ") -> ");
            push_str(&mut out, ret.as_str());
        },
        None => push_str(&mut out, ")"),
    }
    out
}

} // verus!
