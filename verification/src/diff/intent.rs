//! Developer intent inferred from structural change patterns.
//!
//! Each phase of the analysis contributes score bumps (in half points) and
//! human-readable signals; the bumps are tallied per intent, never going
//! below zero, and the intent with the highest tally wins.
use vstd::prelude::*;

use crate::diff::body_diff::{spans_text, strings_view, BodyDiff, DiffLineTag, LineView};
use crate::diff::change::{ChangeKind, ChangeKindView, ChangeView, SemanticChange, change_symbol_name};
use crate::rank::{all_wf, lemma_sort_desc_all, lemma_sort_desc_len, lemma_sort_desc_top, sort_by_score_desc, sort_desc};
use crate::ratio::Ratio;
use crate::text::{
    chars_of, contains_chars, contains_seq, is_ws, join, join_strings, lowercase, occurs_at,
    push_char, push_str, starts_with_chars, to_lowercase, trim_start, trim_start_chars,
};

verus! {

/// High-level intent behind a code change.
#[derive(Debug, Clone, Copy, PartialEq, Eq, Hash, Structural)]
pub enum ChangeIntent {
    /// Targeted condition, bounds or null-check changes.
    BugFix,
    /// Structural reorganisation without behaviour change.
    Refactoring,
    /// New capabilities or significant new logic.
    Feature,
    /// Added or improved error paths.
    ErrorHandling,
    /// Input validation, authentication, sanitisation.
    Security,
    /// Caching, batching, algorithmic improvements.
    Performance,
    /// Breaking interface modifications.
    ApiChange,
    /// Dead code removal, formatting, comments.
    Cleanup,
}

/// The intents in their fixed order.
pub open spec fn intent_at(i: int) -> ChangeIntent {
    if i == 0 {
        ChangeIntent::BugFix
    } else if i == 1 {
        ChangeIntent::Refactoring
    } else if i == 2 {
        ChangeIntent::Feature
    } else if i == 3 {
        ChangeIntent::ErrorHandling
    } else if i == 4 {
        ChangeIntent::Security
    } else if i == 5 {
        ChangeIntent::Performance
    } else if i == 6 {
        ChangeIntent::ApiChange
    } else {
        ChangeIntent::Cleanup
    }
}

impl ChangeIntent {
    /// Position of the intent in the fixed order.
    pub open spec fn index(self) -> int {
        match self {
            ChangeIntent::BugFix => 0,
            ChangeIntent::Refactoring => 1,
            ChangeIntent::Feature => 2,
            ChangeIntent::ErrorHandling => 3,
            ChangeIntent::Security => 4,
            ChangeIntent::Performance => 5,
            ChangeIntent::ApiChange => 6,
            ChangeIntent::Cleanup => 7,
        }
    }

    pub open spec fn label_text(self) -> Seq<char> {
        match self {
            ChangeIntent::BugFix => "bugfix"@,
            ChangeIntent::Refactoring => "refactor"@,
            ChangeIntent::Feature => "feature"@,
            ChangeIntent::ErrorHandling => "error-handling"@,
            ChangeIntent::Security => "security"@,
            ChangeIntent::Performance => "perf"@,
            ChangeIntent::ApiChange => "api-change"@,
            ChangeIntent::Cleanup => "cleanup"@,
        }
    }

    pub open spec fn icon_text(self) -> Seq<char> {
        match self {
            ChangeIntent::BugFix => "BUG"@,
            ChangeIntent::Refactoring => "REF"@,
            ChangeIntent::Feature => "FEA"@,
            ChangeIntent::ErrorHandling => "ERR"@,
            ChangeIntent::Security => "SEC"@,
            ChangeIntent::Performance => "PRF"@,
            ChangeIntent::ApiChange => "API"@,
            ChangeIntent::Cleanup => "CLN"@,
        }
    }

    /// Short lower-case label.
    pub fn label(&self) -> (r: &'static str)
        ensures
            r@ == self.label_text(),
    {
        match self {
            ChangeIntent::BugFix => "bugfix",
            ChangeIntent::Refactoring => "refactor",
            ChangeIntent::Feature => "feature",
            ChangeIntent::ErrorHandling => "error-handling",
            ChangeIntent::Security => "security",
            ChangeIntent::Performance => "perf",
            ChangeIntent::ApiChange => "api-change",
            ChangeIntent::Cleanup => "cleanup",
        }
    }

    /// Three-letter tag.
    pub fn icon(&self) -> (r: &'static str)
        ensures
            r@ == self.icon_text(),
    {
        match self {
            ChangeIntent::BugFix => "BUG",
            ChangeIntent::Refactoring => "REF",
            ChangeIntent::Feature => "FEA",
            ChangeIntent::ErrorHandling => "ERR",
            ChangeIntent::Security => "SEC",
            ChangeIntent::Performance => "PRF",
            ChangeIntent::ApiChange => "API",
            ChangeIntent::Cleanup => "CLN",
        }
    }

    fn position(&self) -> (r: usize)
        ensures
            r as int == self.index(),
    {
        match self {
            ChangeIntent::BugFix => 0,
            ChangeIntent::Refactoring => 1,
            ChangeIntent::Feature => 2,
            ChangeIntent::ErrorHandling => 3,
            ChangeIntent::Security => 4,
            ChangeIntent::Performance => 5,
            ChangeIntent::ApiChange => 6,
            ChangeIntent::Cleanup => 7,
        }
    }
}

fn intent_of(i: usize) -> (r: ChangeIntent)
    ensures
        r == intent_at(i as int),
{
    if i == 0 {
        ChangeIntent::BugFix
    } else if i == 1 {
        ChangeIntent::Refactoring
    } else if i == 2 {
        ChangeIntent::Feature
    } else if i == 3 {
        ChangeIntent::ErrorHandling
    } else if i == 4 {
        ChangeIntent::Security
    } else if i == 5 {
        ChangeIntent::Performance
    } else if i == 6 {
        ChangeIntent::ApiChange
    } else {
        ChangeIntent::Cleanup
    }
}

/// Result of intent classification for a single change. Confidences are
/// fractions of the highest tally.
#[derive(Debug)]
pub struct IntentClassification {
    /// The intent with the highest tally (the first of the fixed order
    /// among equal tallies).
    pub primary: ChangeIntent,
    /// The primary intent's share of the highest tally.
    pub confidence: Ratio,
    /// Other intents whose share exceeds 3/10, best first.
    pub secondary: Vec<(ChangeIntent, Ratio)>,
    /// Human-readable signals that contributed.
    pub signals: Vec<String>,
}

pub struct IntentView {
    pub primary: ChangeIntent,
    pub confidence: Ratio,
    pub secondary: Seq<(ChangeIntent, Ratio)>,
    pub signals: Seq<Seq<char>>,
}

impl View for IntentClassification {
    type V = IntentView;

    open spec fn view(&self) -> IntentView {
        IntentView {
            primary: self.primary,
            confidence: self.confidence,
            secondary: self.secondary@,
            signals: strings_view(self.signals@),
        }
    }
}

impl IntentClassification {
    pub fn duplicate(&self) -> (r: IntentClassification)
        ensures
            r@ == self@,
    {
        let mut secondary: Vec<(ChangeIntent, Ratio)> = Vec::new();
        let mut i: usize = 0;
        while i < self.secondary.len()
            invariant
                i <= self.secondary.len(),
                secondary@ == self.secondary@.take(i as int),
            decreases self.secondary.len() - i,
        {
            secondary.push(self.secondary[i]);
            i = i + 1;
            assert(secondary@ =~= self.secondary@.take(i as int));
        }
        let mut signals: Vec<String> = Vec::new();
        let mut j: usize = 0;
        while j < self.signals.len()
            invariant
                j <= self.signals.len(),
                strings_view(signals@) == strings_view(self.signals@).take(j as int),
            decreases self.signals.len() - j,
        {
            let ghost prev = signals@;
            let c = self.signals[j].clone();
            signals.push(c);
            proof {
                assert(strings_view(signals@) =~= strings_view(prev).push(self.signals@[j as int]@));
                assert(strings_view(self.signals@).take(j + 1) =~= strings_view(self.signals@).take(
                    j as int,
                ).push(self.signals@[j as int]@));
            }
            j = j + 1;
        }
        assert(secondary@ =~= self.secondary@);
        assert(strings_view(signals@) =~= strings_view(self.signals@));
        IntentClassification {
            primary: self.primary,
            confidence: self.confidence,
            secondary,
            signals,
        }
    }
}

// ------------------------------------------------------------------ tallies

/// One score bump: an intent and a signed number of half points.
pub type Bump = (ChangeIntent, i64);

/// Applies one bump; a tally never drops below zero.
pub open spec fn bump(s: Seq<int>, b: Bump) -> Seq<int> {
    let k = b.0.index();
    s.update(k, if s[k] + b.1 > 0 { s[k] + b.1 } else { 0 })
}

pub open spec fn tally_from(s: Seq<int>, bumps: Seq<Bump>) -> Seq<int>
    decreases bumps.len(),
{
    if bumps.len() == 0 {
        s
    } else {
        bump(tally_from(s, bumps.drop_last()), bumps.last())
    }
}

/// The tallies of the eight intents after the bumps, in order, from zero.
pub open spec fn tally(bumps: Seq<Bump>) -> Seq<int> {
    tally_from(Seq::new(8, |i: int| 0), bumps)
}

/// Bumps of at most five whole points either way.
pub open spec fn small_bumps(bumps: Seq<Bump>) -> bool {
    forall|k: int| 0 <= k < bumps.len() ==> -10 <= (#[trigger] bumps[k]).1 <= 10
}

/// The highest tally (zero when all are zero).
pub open spec fn max_tally(s: Seq<int>) -> int
    decreases s.len(),
{
    if s.len() == 0 {
        0
    } else {
        let m = max_tally(s.drop_last());
        if s.last() > m {
            s.last()
        } else {
            m
        }
    }
}

/// Each intent with its share of the highest tally, in the fixed order.
pub open spec fn shares(s: Seq<int>) -> Seq<(Ratio, ChangeIntent)> {
    let m = max_tally(s);
    Seq::new(
        8,
        |i: int|
            (
                if m > 0 {
                    Ratio { num: s[i] as u64, den: m as u64 }
                } else {
                    Ratio { num: 0, den: 1 }
                },
                intent_at(i),
            ),
    )
}

pub open spec fn swap_pair(x: (Ratio, ChangeIntent)) -> (ChangeIntent, Ratio) {
    (x.1, x.0)
}

/// The classification that the bumps and signals of a change give.
pub open spec fn resolve_spec(bumps: Seq<Bump>, signals: Seq<Seq<char>>) -> IntentView {
    let sorted = sort_desc(shares(tally(bumps)));
    IntentView {
        primary: sorted[0].1,
        confidence: sorted[0].0,
        secondary: sorted.skip(1).filter(|x: (Ratio, ChangeIntent)| x.0.above(3, 10)).map_values(
            |x: (Ratio, ChangeIntent)| swap_pair(x),
        ),
        signals,
    }
}

fn tally_scores(bumps: &Vec<Bump>) -> (r: Vec<u64>)
    requires
        bumps.len() < 0x0800_0000_0000_0000,
        small_bumps(bumps@),
    ensures
        r@.len() == 8,
        tally(bumps@).len() == 8,
        forall|k: int| 0 <= k < 8 ==> r@[k] == tally(bumps@)[k],
        forall|k: int| 0 <= k < 8 ==> 0 <= #[trigger] tally(bumps@)[k] <= 0x5000_0000_0000_0000,
{
    let mut scores: Vec<u64> = Vec::new();
    let mut z: usize = 0;
    while z < 8
        invariant
            z <= 8,
            scores@.len() == z,
            forall|k: int| 0 <= k < z ==> scores@[k] == 0,
        decreases 8 - z,
    {
        scores.push(0);
        z = z + 1;
    }
    proof {
        assert(bumps@.take(0) =~= Seq::<Bump>::empty());
    }
    let mut i: usize = 0;
    while i < bumps.len()
        invariant
            i <= bumps.len(),
            bumps.len() < 0x0800_0000_0000_0000,
            small_bumps(bumps@),
            scores@.len() == 8,
            tally(bumps@.take(i as int)).len() == 8,
            forall|k: int| 0 <= k < 8 ==> scores@[k] == tally(bumps@.take(i as int))[k],
            forall|k: int| 0 <= k < 8 ==> scores@[k] <= 10 * i,
        decreases bumps.len() - i,
    {
        let (intent, delta) = bumps[i];
        let k = intent.position();
        assert(-10 <= bumps@[i as int].1 <= 10);
        let cur = scores[k] as i64;
        let v = cur + delta;
        let nv: u64 = if v > 0 {
            v as u64
        } else {
            0
        };
        scores.set(k, nv);
        proof {
            assert(bumps@.take(i + 1).drop_last() =~= bumps@.take(i as int));
        }
        i = i + 1;
    }
    proof {
        assert(bumps@.take(bumps.len() as int) =~= bumps@);
        assert forall|k: int| 0 <= k < 8 implies 0 <= #[trigger] tally(bumps@)[k] <= 0x5000_0000_0000_0000 by {
            assert(scores@[k] == tally(bumps@)[k]);
        }
    }
    scores
}

fn highest(scores: &Vec<u64>) -> (m: u64)
    requires
        scores@.len() == 8,
    ensures
        m == max_tally(scores@.map_values(|v: u64| v as int)),
{
    let ghost sv = scores@.map_values(|v: u64| v as int);
    let mut m: u64 = 0;
    let mut i: usize = 0;
    while i < 8
        invariant
            i <= 8,
            scores@.len() == 8,
            sv == scores@.map_values(|v: u64| v as int),
            m == max_tally(sv.take(i as int)),
        decreases 8 - i,
    {
        proof {
            assert(sv.take(i + 1).drop_last() =~= sv.take(i as int));
        }
        if scores[i] > m {
            m = scores[i];
        }
        i = i + 1;
    }
    proof {
        assert(sv.take(8) =~= sv);
    }
    m
}

proof fn lemma_max_tally_bound(s: Seq<int>, b: int)
    requires
        forall|k: int| 0 <= k < s.len() ==> 0 <= #[trigger] s[k] <= b,
    ensures
        0 <= max_tally(s),
        b >= 0 ==> max_tally(s) <= b,
        forall|k: int| 0 <= k < s.len() ==> #[trigger] s[k] <= max_tally(s),
    decreases s.len(),
{
    if s.len() > 0 {
        lemma_max_tally_bound(s.drop_last(), b);
        assert forall|k: int| 0 <= k < s.len() implies #[trigger] s[k] <= max_tally(s) by {
            if k < s.len() - 1 {
                assert(s.drop_last()[k] == s[k]);
            }
        }
    }
}

/// A share between zero and one, with a positive denominator.
pub open spec fn unit_share(r: Ratio) -> bool {
    r.wf() && r.num <= r.den
}

proof fn lemma_tally_range(bumps: Seq<Bump>)
    requires
        small_bumps(bumps),
    ensures
        tally(bumps).len() == 8,
        forall|k: int| 0 <= k < 8 ==> 0 <= #[trigger] tally(bumps)[k] <= 10 * bumps.len(),
    decreases bumps.len(),
{
    if bumps.len() > 0 {
        let init = bumps.drop_last();
        assert forall|k: int| 0 <= k < init.len() implies -10 <= (#[trigger] init[k]).1 <= 10 by {
            assert(init[k] == bumps[k]);
        }
        lemma_tally_range(init);
        assert(-10 <= bumps[bumps.len() - 1].1 <= 10);
    }
}

/// Every share in a classification lies between zero and one: the primary
/// intent's confidence and the share of each secondary intent.
pub proof fn lemma_intent_shares_unit(bumps: Seq<Bump>, signals: Seq<Seq<char>>)
    requires
        bumps.len() < 0x0800_0000_0000_0000,
        small_bumps(bumps),
    ensures
        unit_share(resolve_spec(bumps, signals).confidence),
        forall|k: int|
            0 <= k < resolve_spec(bumps, signals).secondary.len() ==> unit_share(
                (#[trigger] resolve_spec(bumps, signals).secondary[k]).1,
            ),
{
    let t = tally(bumps);
    lemma_tally_range(bumps);
    lemma_max_tally_bound(t, 0x5000_0000_0000_0000);
    let sh = shares(t);
    assert forall|i: int| 0 <= i < sh.len() implies (|x: (Ratio, ChangeIntent)| unit_share(x.0))(
        #[trigger] sh[i],
    ) by {
        assert(t[i] <= max_tally(t));
    }
    lemma_sort_desc_all(sh, |x: (Ratio, ChangeIntent)| unit_share(x.0));
    lemma_sort_desc_len(sh);
    let sorted = sort_desc(sh);
    assert((|x: (Ratio, ChangeIntent)| unit_share(x.0))(sorted[0]));
    let rest = sorted.skip(1);
    let p = |x: (Ratio, ChangeIntent)| x.0.above(3, 10);
    let f = rest.filter(p);
    let v = resolve_spec(bumps, signals);
    assert forall|k: int| 0 <= k < v.secondary.len() implies unit_share((#[trigger] v.secondary[k]).1) by {
        assert(v.secondary[k] == swap_pair(f[k]));
        assert(f.contains(f[k]));
        rest.lemma_filter_contains_rev(p, f[k]);
        let j = choose|j: int| 0 <= j < rest.len() && rest[j] == f[k];
        assert(rest[j] == sorted[j + 1]);
        assert((|x: (Ratio, ChangeIntent)| unit_share(x.0))(sorted[j + 1]));
    }
}

/// The classification from a change's bumps and signals: tallies per
/// intent, shares of the highest tally, best share first. The bound on the
/// number of bumps is one no vector in memory can pass (a bump takes 16
/// bytes), and it keeps every tally exact in 64 bits.
pub fn resolve_intent(bumps: &Vec<Bump>, signals: Vec<String>) -> (r: IntentClassification)
    requires
        bumps.len() < 0x0800_0000_0000_0000,
        small_bumps(bumps@),
    ensures
        r@ == resolve_spec(bumps@, strings_view(signals@)),
{
    let scores = tally_scores(bumps);
    let ghost t = tally(bumps@);
    proof {
        assert(scores@.map_values(|v: u64| v as int) =~= t);
        lemma_max_tally_bound(t, 0x5000_0000_0000_0000);
    }
    let m = highest(&scores);
    let mut items: Vec<(Ratio, ChangeIntent)> = Vec::new();
    let mut i: usize = 0;
    while i < 8
        invariant
            i <= 8,
            scores@.len() == 8,
            t.len() == 8,
            forall|k: int| 0 <= k < 8 ==> scores@[k] == t[k],
            m == max_tally(t),
            items@ == shares(t).take(i as int),
        decreases 8 - i,
    {
        let ratio = if m > 0 {
            Ratio { num: scores[i], den: m }
        } else {
            Ratio { num: 0, den: 1 }
        };
        items.push((ratio, intent_of(i)));
        i = i + 1;
        proof {
            assert(items@ =~= shares(t).take(i as int));
        }
    }
    proof {
        assert(items@ =~= shares(t));
        assert(all_wf(items@));
        lemma_sort_desc_len(items@);
        lemma_sort_desc_all(items@, |x: (Ratio, ChangeIntent)| x.0.wf());
    }
    let sorted = sort_by_score_desc(items);
    let ghost sv = sorted@;
    let primary = sorted[0].1;
    let confidence = sorted[0].0;
    let mut secondary: Vec<(ChangeIntent, Ratio)> = Vec::new();
    let mut j: usize = 1;
    proof {
        assert(sv.skip(1).take(0) =~= Seq::<(Ratio, ChangeIntent)>::empty());
    }
    while j < sorted.len()
        invariant
            1 <= j <= sorted.len(),
            sorted.len() == 8,
            sv == sorted@,
            forall|k: int| 0 <= k < 8 ==> (#[trigger] sv[k]).0.wf(),
            secondary@ == sv.skip(1).take(j - 1).filter(
                |x: (Ratio, ChangeIntent)| x.0.above(3, 10),
            ).map_values(|x: (Ratio, ChangeIntent)| swap_pair(x)),
        decreases sorted.len() - j,
    {
        let item = sorted[j];
        let ghost prev = secondary@;
        assert(sv[j as int].0.wf());
        if item.0.exceeds(3, 10) {
            secondary.push((item.1, item.0));
        }
        proof {
            let f = |x: (Ratio, ChangeIntent)| x.0.above(3, 10);
            let a = sv.skip(1).take(j as int);
            let b = sv.skip(1).take(j - 1);
            assert(a.drop_last() =~= b);
            assert(a.last() == sv[j as int]);
            reveal_with_fuel(Seq::filter, 1);
            if f(sv[j as int]) {
                assert(a.filter(f) =~= b.filter(f).push(sv[j as int]));
                assert(secondary@ =~= prev.push(swap_pair(sv[j as int])));
            } else {
                assert(a.filter(f) =~= b.filter(f));
            }
            assert(a.filter(f).map_values(|x: (Ratio, ChangeIntent)| swap_pair(x)) =~= secondary@);
        }
        j = j + 1;
    }
    proof {
        assert(sv.skip(1).take(7) =~= sv.skip(1));
    }
    IntentClassification { primary, confidence, secondary, signals }
}

// ---------------------------------------------------------------- phase 1

pub open spec fn opt_bump(c: bool, b: Bump) -> Seq<Bump> {
    if c {
        seq![b]
    } else {
        Seq::empty()
    }
}

pub open spec fn opt_signal(c: bool, s: Seq<char>) -> Seq<Seq<char>> {
    if c {
        seq![s]
    } else {
        Seq::empty()
    }
}

/// Bumps from the kind of structural change.
pub open spec fn structural_bumps(k: ChangeKindView) -> Seq<Bump> {
    match k {
        ChangeKindView::Added => seq![(ChangeIntent::Feature, 6i64)],
        ChangeKindView::Deleted => seq![(ChangeIntent::Cleanup, 4i64), (ChangeIntent::Refactoring, 2i64)],
        ChangeKindView::Renamed { .. } => seq![(ChangeIntent::Refactoring, 8i64)],
        ChangeKindView::Moved { .. } => seq![(ChangeIntent::Refactoring, 8i64)],
        ChangeKindView::MovedAndModified { .. } => seq![
            (ChangeIntent::Refactoring, 6i64),
            (ChangeIntent::Feature, 2i64),
        ],
        ChangeKindView::Extracted { .. } => seq![(ChangeIntent::Refactoring, 10i64)],
        ChangeKindView::Inlined { .. } => seq![
            (ChangeIntent::Refactoring, 8i64),
            (ChangeIntent::Cleanup, 2i64),
        ],
        ChangeKindView::SignatureChanged { details } => seq![(ChangeIntent::ApiChange, 6i64)]
            + opt_bump(details.params_added.len() > 0, (ChangeIntent::Feature, 4i64)) + opt_bump(
            details.params_removed.len() > 0,
            (ChangeIntent::ApiChange, 4i64),
        ) + opt_bump(details.return_type_changed, (ChangeIntent::ApiChange, 4i64)),
        ChangeKindView::BodyChanged => seq![(ChangeIntent::BugFix, 2i64), (ChangeIntent::Feature, 2i64)],
        ChangeKindView::VisibilityChanged { .. } => seq![(ChangeIntent::ApiChange, 6i64)],
    }
}

/// Signals from the kind of structural change.
pub open spec fn structural_signals(k: ChangeKindView) -> Seq<Seq<char>> {
    match k {
        ChangeKindView::Added => seq!["new symbol added"@],
        ChangeKindView::Deleted => seq!["symbol removed"@],
        ChangeKindView::Renamed { .. } => seq!["symbol renamed"@],
        ChangeKindView::Moved { .. } => seq!["symbol moved to different file"@],
        ChangeKindView::MovedAndModified { .. } => seq!["symbol moved and modified"@],
        ChangeKindView::Extracted { .. } => seq!["method extraction"@],
        ChangeKindView::Inlined { .. } => seq!["method inlined"@],
        ChangeKindView::SignatureChanged { details } => opt_signal(
            details.params_added.len() > 0,
            "parameters added"@,
        ) + opt_signal(details.params_removed.len() > 0, "parameters removed (breaking)"@)
            + opt_signal(details.return_type_changed, "return type changed"@),
        ChangeKindView::BodyChanged => Seq::empty(),
        ChangeKindView::VisibilityChanged { .. } => seq!["visibility changed"@],
    }
}

fn push_bump(bumps: &mut Vec<Bump>, intent: ChangeIntent, delta: i64)
    ensures
        final(bumps)@ == old(bumps)@.push((intent, delta)),
{
    bumps.push((intent, delta));
}

fn push_signal(signals: &mut Vec<String>, text: &str)
    ensures
        strings_view(final(signals)@) == strings_view(old(signals)@).push(text@),
{
    let ghost prev = signals@;
    signals.push(String::from_str(text));
    assert(strings_view(signals@) =~= strings_view(prev).push(text@));
}

/// Phase 1: bumps and signals from the kind of structural change.
pub fn score_structural(kind: &ChangeKind, bumps: &mut Vec<Bump>, signals: &mut Vec<String>)
    ensures
        final(bumps)@ == old(bumps)@ + structural_bumps(kind@),
        strings_view(final(signals)@) == strings_view(old(signals)@) + structural_signals(kind@),
{
    let ghost b0 = bumps@;
    let ghost s0 = strings_view(signals@);
    match kind {
        ChangeKind::Added => {
            push_bump(bumps, ChangeIntent::Feature, 6);
            push_signal(signals, "new symbol added");
        },
        ChangeKind::Deleted => {
            push_bump(bumps, ChangeIntent::Cleanup, 4);
            push_bump(bumps, ChangeIntent::Refactoring, 2);
            push_signal(signals, "symbol removed");
        },
        ChangeKind::Renamed { .. } => {
            push_bump(bumps, ChangeIntent::Refactoring, 8);
            push_signal(signals, "symbol renamed");
        },
        ChangeKind::Moved { .. } => {
            push_bump(bumps, ChangeIntent::Refactoring, 8);
            push_signal(signals, "symbol moved to different file");
        },
        ChangeKind::MovedAndModified { .. } => {
            push_bump(bumps, ChangeIntent::Refactoring, 6);
            push_bump(bumps, ChangeIntent::Feature, 2);
            push_signal(signals, "symbol moved and modified");
        },
        ChangeKind::Extracted { .. } => {
            push_bump(bumps, ChangeIntent::Refactoring, 10);
            push_signal(signals, "method extraction");
        },
        ChangeKind::Inlined { .. } => {
            push_bump(bumps, ChangeIntent::Refactoring, 8);
            push_bump(bumps, ChangeIntent::Cleanup, 2);
            push_signal(signals, "method inlined");
        },
        ChangeKind::SignatureChanged { details } => {
            push_bump(bumps, ChangeIntent::ApiChange, 6);
            let ghost b1 = bumps@;
            let ghost s1 = strings_view(signals@);
            if details.params_added.len() > 0 {
                push_bump(bumps, ChangeIntent::Feature, 4);
                push_signal(signals, "parameters added");
            }
            let ghost b2 = bumps@;
            let ghost s2 = strings_view(signals@);
            if details.params_removed.len() > 0 {
                push_bump(bumps, ChangeIntent::ApiChange, 4);
                push_signal(signals, "parameters removed (breaking)");
            }
            let ghost b3 = bumps@;
            let ghost s3 = strings_view(signals@);
            if details.return_type_changed {
                push_bump(bumps, ChangeIntent::ApiChange, 4);
                push_signal(signals, "return type changed");
            }
            proof {
                let d = details@;
                assert(b2 =~= b1 + opt_bump(d.params_added.len() > 0, (ChangeIntent::Feature, 4i64)));
                assert(b3 =~= b2 + opt_bump(d.params_removed.len() > 0, (ChangeIntent::ApiChange, 4i64)));
                assert(bumps@ =~= b3 + opt_bump(d.return_type_changed, (ChangeIntent::ApiChange, 4i64)));
                assert(s2 =~= s1 + opt_signal(d.params_added.len() > 0, "parameters added"@));
                assert(s3 =~= s2 + opt_signal(d.params_removed.len() > 0, "parameters removed (breaking)"@));
                assert(strings_view(signals@) =~= s3 + opt_signal(d.return_type_changed, "return type changed"@));
            }
        },
        ChangeKind::BodyChanged => {
            push_bump(bumps, ChangeIntent::BugFix, 2);
            push_bump(bumps, ChangeIntent::Feature, 2);
        },
        ChangeKind::VisibilityChanged { .. } => {
            push_bump(bumps, ChangeIntent::ApiChange, 6);
            push_signal(signals, "visibility changed");
        },
    }
    proof {
        assert(bumps@ =~= b0 + structural_bumps(kind@));
        assert(strings_view(signals@) =~= s0 + structural_signals(kind@));
    }
}

// ---------------------------------------------------------------- phase 2

/// A keyword and the signal that its appearance gives.
pub type Pattern = (Seq<char>, Seq<char>);

pub open spec fn table_view(t: Seq<(&str, &str)>) -> Seq<Pattern> {
    t.map_values(|p: (&str, &str)| (p.0@, p.1@))
}

/// Keywords of bug fixes.
pub open spec fn bugfix_patterns() -> Seq<Pattern> {
    seq![
        ("fix"@, "fix keyword"@),
        ("off by"@, "off-by-one pattern"@),
        ("boundary"@, "boundary check"@),
        ("overflow"@, "overflow protection"@),
        ("underflow"@, "underflow protection"@),
        ("== null"@, "null check"@),
        ("!= null"@, "null check"@),
        ("is_none"@, "None check"@),
        ("is_some"@, "Some check"@),
        ("unwrap_or"@, "safe unwrap"@),
        ("undefined"@, "undefined check"@),
    ]
}

fn bugfix_table() -> (r: Vec<(&'static str, &'static str)>)
    ensures
        table_view(r@) == bugfix_patterns(),
{
    let mut t: Vec<(&'static str, &'static str)> = Vec::new();
    t.push(("fix", "fix keyword"));
    t.push(("off by", "off-by-one pattern"));
    t.push(("boundary", "boundary check"));
    t.push(("overflow", "overflow protection"));
    t.push(("underflow", "underflow protection"));
    t.push(("== null", "null check"));
    t.push(("!= null", "null check"));
    t.push(("is_none", "None check"));
    t.push(("is_some", "Some check"));
    t.push(("unwrap_or", "safe unwrap"));
    t.push(("undefined", "undefined check"));
    assert(table_view(t@) =~= bugfix_patterns());
    t
}

/// Keywords of error handling.
pub open spec fn error_patterns() -> Seq<Pattern> {
    seq![
        ("catch"@, "catch block"@),
        ("error"@, "error handling"@),
        ("err "@, "error variable"@),
        ("result<"@, "Result type"@),
        ("try "@, "try block"@),
        ("except"@, "exception handler"@),
        ("raise"@, "exception raising"@),
        ("throw"@, "throw statement"@),
        ("anyhow"@, "anyhow error"@),
        ("bail!"@, "bail macro"@),
        ("context("@, "error context"@),
        (".map_err("@, "error mapping"@),
    ]
}

fn error_table() -> (r: Vec<(&'static str, &'static str)>)
    ensures
        table_view(r@) == error_patterns(),
{
    let mut t: Vec<(&'static str, &'static str)> = Vec::new();
    t.push(("catch", "catch block"));
    t.push(("error", "error handling"));
    t.push(("err ", "error variable"));
    t.push(("result<", "Result type"));
    t.push(("try ", "try block"));
    t.push(("except", "exception handler"));
    t.push(("raise", "exception raising"));
    t.push(("throw", "throw statement"));
    t.push(("anyhow", "anyhow error"));
    t.push(("bail!", "bail macro"));
    t.push(("context(", "error context"));
    t.push((".map_err(", "error mapping"));
    assert(table_view(t@) =~= error_patterns());
    t
}

/// Keywords of security work.
pub open spec fn security_patterns() -> Seq<Pattern> {
    seq![
        ("sanitiz"@, "input sanitization"@),
        ("validat"@, "input validation"@),
        ("escape"@, "string escaping"@),
        ("auth"@, "authentication"@),
        ("permission"@, "permission check"@),
        ("token"@, "token handling"@),
        ("csrf"@, "CSRF protection"@),
        ("xss"@, "XSS protection"@),
        ("inject"@, "injection prevention"@),
        ("encrypt"@, "encryption"@),
        ("hash"@, "hashing"@),
        ("secret"@, "secret handling"@),
        ("credential"@, "credential handling"@),
    ]
}

fn security_table() -> (r: Vec<(&'static str, &'static str)>)
    ensures
        table_view(r@) == security_patterns(),
{
    let mut t: Vec<(&'static str, &'static str)> = Vec::new();
    t.push(("sanitiz", "input sanitization"));
    t.push(("validat", "input validation"));
    t.push(("escape", "string escaping"));
    t.push(("auth", "authentication"));
    t.push(("permission", "permission check"));
    t.push(("token", "token handling"));
    t.push(("csrf", "CSRF protection"));
    t.push(("xss", "XSS protection"));
    t.push(("inject", "injection prevention"));
    t.push(("encrypt", "encryption"));
    t.push(("hash", "hashing"));
    t.push(("secret", "secret handling"));
    t.push(("credential", "credential handling"));
    assert(table_view(t@) =~= security_patterns());
    t
}

/// Keywords of performance work.
pub open spec fn performance_patterns() -> Seq<Pattern> {
    seq![
        ("cache"@, "caching"@),
        ("memo"@, "memoization"@),
        ("lazy"@, "lazy evaluation"@),
        ("batch"@, "batch processing"@),
        ("parallel"@, "parallelization"@),
        ("par_iter"@, "parallel iteration"@),
        ("async"@, "async processing"@),
        ("pool"@, "connection/thread pooling"@),
        ("index"@, "index optimization"@),
        ("o(1)"@, "O(1) optimization"@),
        ("o(n)"@, "O(n) optimization"@),
        ("hashmap"@, "hash-based lookup"@),
        ("hashset"@, "hash-based set"@),
        ("buffer"@, "buffering"@),
        ("prefetch"@, "prefetching"@),
    ]
}

fn performance_table() -> (r: Vec<(&'static str, &'static str)>)
    ensures
        table_view(r@) == performance_patterns(),
{
    let mut t: Vec<(&'static str, &'static str)> = Vec::new();
    t.push(("cache", "caching"));
    t.push(("memo", "memoization"));
    t.push(("lazy", "lazy evaluation"));
    t.push(("batch", "batch processing"));
    t.push(("parallel", "parallelization"));
    t.push(("par_iter", "parallel iteration"));
    t.push(("async", "async processing"));
    t.push(("pool", "connection/thread pooling"));
    t.push(("index", "index optimization"));
    t.push(("o(1)", "O(1) optimization"));
    t.push(("o(n)", "O(n) optimization"));
    t.push(("hashmap", "hash-based lookup"));
    t.push(("hashset", "hash-based set"));
    t.push(("buffer", "buffering"));
    t.push(("prefetch", "prefetching"));
    assert(table_view(t@) =~= performance_patterns());
    t
}

/// Line starts that mark a condition or guard.
pub open spec fn condition_keywords() -> Seq<Seq<char>> {
    seq!["if "@, "else"@, "match "@, "switch "@, "case "@]
}

fn condition_table() -> (r: Vec<&'static str>)
    ensures
        r@.map_values(|k: &str| k@) == condition_keywords(),
{
    let mut t: Vec<&'static str> = Vec::new();
    t.push("if ");
    t.push("else");
    t.push("match ");
    t.push("switch ");
    t.push("case ");
    assert(t@.map_values(|k: &str| k@) =~= condition_keywords());
    t
}

/// The patterns whose keyword occurs in the added text but not in the
/// removed text.
pub open spec fn keyword_hits(pats: Seq<Pattern>, added: Seq<char>, removed: Seq<char>) -> Seq<
    Pattern,
> {
    pats.filter(|p: Pattern| contains_seq(added, p.0) && !contains_seq(removed, p.0))
}

pub open spec fn hit_bumps(hits: Seq<Pattern>, intent: ChangeIntent, delta: i64) -> Seq<Bump> {
    hits.map_values(|p: Pattern| (intent, delta))
}

pub open spec fn hit_signals(hits: Seq<Pattern>) -> Seq<Seq<char>> {
    hits.map_values(|p: Pattern| "added "@ + p.1)
}

/// Some line, without its leading white space, starts with some keyword.
pub open spec fn starts_with_any(lines: Seq<Seq<char>>, kws: Seq<Seq<char>>) -> bool {
    exists|k: int, j: int|
        0 <= k < kws.len() && 0 <= j < lines.len() && #[trigger] occurs_at(
            trim_start(lines[j]),
            kws[k],
            0,
        )
}

pub open spec fn is_digit(c: char) -> bool {
    '0' <= c <= '9'
}

/// Index just past a quoted literal whose opening quote `q` precedes `j`;
/// a backslash escapes the next character, and an unterminated literal
/// runs to the end.
pub open spec fn skip_quoted(c: Seq<char>, j: int, q: char) -> int
    decreases c.len() - j,
{
    if j < 0 || j >= c.len() {
        j
    } else if c[j] == q {
        j + 1
    } else if c[j] == '\\' {
        if j + 2 <= c.len() {
            skip_quoted(c, j + 2, q)
        } else {
            c.len() as int
        }
    } else {
        skip_quoted(c, j + 1, q)
    }
}

/// Index just past a run of digits, dots and underscores from `j`.
pub open spec fn skip_number(c: Seq<char>, j: int) -> int
    decreases c.len() - j,
{
    if 0 <= j < c.len() && (is_digit(c[j]) || c[j] == '.' || c[j] == '_') {
        skip_number(c, j + 1)
    } else {
        j
    }
}

pub proof fn lemma_skip_quoted(c: Seq<char>, j: int, q: char)
    requires
        0 <= j <= c.len(),
    ensures
        j <= skip_quoted(c, j, q) <= c.len(),
    decreases c.len() - j,
{
    if j < c.len() && c[j] != q {
        if c[j] == '\\' {
            if j + 2 <= c.len() {
                lemma_skip_quoted(c, j + 2, q);
            }
        } else {
            lemma_skip_quoted(c, j + 1, q);
        }
    }
}

pub proof fn lemma_skip_number(c: Seq<char>, j: int)
    requires
        0 <= j <= c.len(),
    ensures
        j <= skip_number(c, j) <= c.len(),
    decreases c.len() - j,
{
    if j < c.len() && (is_digit(c[j]) || c[j] == '.' || c[j] == '_') {
        lemma_skip_number(c, j + 1);
    }
}

/// The text from `i` on with each string, character or numeric literal
/// replaced by `_`.
pub open spec fn strip_from(c: Seq<char>, i: int) -> Seq<char>
    decreases c.len() - i,
{
    if i < 0 || i >= c.len() {
        Seq::empty()
    } else if c[i] == '"' || c[i] == '\'' {
        proof {
            lemma_skip_quoted(c, i + 1, c[i]);
        }
        seq!['_'] + strip_from(c, skip_quoted(c, i + 1, c[i]))
    } else if is_digit(c[i]) {
        proof {
            lemma_skip_number(c, i + 1);
        }
        seq!['_'] + strip_from(c, skip_number(c, i + 1))
    } else {
        seq![c[i]] + strip_from(c, i + 1)
    }
}

pub open spec fn strip_literals_spec(line: Seq<char>) -> Seq<char> {
    strip_from(line, 0)
}

/// Every removed line equals its added counterpart once literals are
/// stripped, with as many lines on each side and at least one.
pub open spec fn only_literals_changed(added: Seq<Seq<char>>, removed: Seq<Seq<char>>) -> bool {
    &&& removed.len() > 0
    &&& removed.len() == added.len()
    &&& forall|i: int|
        0 <= i < removed.len() ==> strip_literals_spec(#[trigger] removed[i]) == strip_literals_spec(
            added[i],
        )
}

/// Few changed lines, under three tenths of the body.
pub open spec fn small_targeted(a: nat, r: nat, equal: nat) -> bool {
    a + r <= 6 && (a + r) * 10 < 3 * (a + r + equal)
}

pub open spec fn mostly_added(a: nat, r: nat) -> bool {
    a * 10 > 8 * (a + r) && a > 3
}

pub open spec fn mostly_removed(a: nat, r: nat) -> bool {
    a * 10 < 2 * (a + r) && r > 3
}

pub open spec fn condition_modified(added: Seq<Seq<char>>, removed: Seq<Seq<char>>) -> bool {
    starts_with_any(added, condition_keywords()) && starts_with_any(removed, condition_keywords())
        && added.len() + removed.len() <= 8
}

/// Bumps from the volume of changed lines.
pub open spec fn volume_bumps(a: nat, r: nat, equal: nat) -> Seq<Bump> {
    opt_bump(small_targeted(a, r, equal), (ChangeIntent::BugFix, 4i64)) + opt_bump(
        mostly_added(a, r),
        (ChangeIntent::Feature, 4i64),
    ) + opt_bump(mostly_removed(a, r), (ChangeIntent::Cleanup, 4i64))
}

pub open spec fn volume_signals(a: nat, r: nat, equal: nat) -> Seq<Seq<char>> {
    opt_signal(small_targeted(a, r, equal), "small targeted change"@) + opt_signal(
        mostly_added(a, r),
        "mostly new code added"@,
    ) + opt_signal(mostly_removed(a, r), "mostly code removed"@)
}

/// Bumps from the content of the changed lines: keywords joined over all
/// added (resp. removed) lines, modified guards, literal-only edits.
pub open spec fn content_bumps(added: Seq<Seq<char>>, removed: Seq<Seq<char>>) -> Seq<Bump> {
    let aa = join(added, " "@);
    let ar = join(removed, " "@);
    hit_bumps(keyword_hits(bugfix_patterns(), aa, ar), ChangeIntent::BugFix, 3) + opt_bump(
        condition_modified(added, removed),
        (ChangeIntent::BugFix, 5i64),
    ) + hit_bumps(keyword_hits(error_patterns(), aa, ar), ChangeIntent::ErrorHandling, 3)
        + hit_bumps(keyword_hits(security_patterns(), aa, ar), ChangeIntent::Security, 4)
        + hit_bumps(keyword_hits(performance_patterns(), aa, ar), ChangeIntent::Performance, 3)
        + opt_bump(only_literals_changed(added, removed), (ChangeIntent::BugFix, 4i64))
}

pub open spec fn content_signals(added: Seq<Seq<char>>, removed: Seq<Seq<char>>) -> Seq<Seq<char>> {
    let aa = join(added, " "@);
    let ar = join(removed, " "@);
    hit_signals(keyword_hits(bugfix_patterns(), aa, ar)) + opt_signal(
        condition_modified(added, removed),
        "condition/guard modified"@,
    ) + hit_signals(keyword_hits(error_patterns(), aa, ar)) + hit_signals(
        keyword_hits(security_patterns(), aa, ar),
    ) + hit_signals(keyword_hits(performance_patterns(), aa, ar)) + opt_signal(
        only_literals_changed(added, removed),
        "only literal values changed"@,
    )
}

/// Bumps from the added and removed lines (lower-cased) and the number of
/// unchanged lines of a body diff.
pub open spec fn pattern_bumps(added: Seq<Seq<char>>, removed: Seq<Seq<char>>, equal: nat) -> Seq<
    Bump,
> {
    if added.len() + removed.len() == 0 {
        seq![(ChangeIntent::Cleanup, 6i64)]
    } else {
        volume_bumps(added.len(), removed.len(), equal) + content_bumps(added, removed)
    }
}

/// Signals from the same lines, in the order of the bumps.
pub open spec fn pattern_signals(added: Seq<Seq<char>>, removed: Seq<Seq<char>>, equal: nat) -> Seq<
    Seq<char>,
> {
    if added.len() + removed.len() == 0 {
        seq!["no effective changes (formatting only)"@]
    } else {
        volume_signals(added.len(), removed.len(), equal) + content_signals(added, removed)
    }
}

/// The line with each string, character and numeric literal replaced by
/// `_`, so that two lines differing only in values compare equal.
pub fn strip_literals(line: &str) -> (r: String)
    ensures
        r@ == strip_literals_spec(line@),
{
    let chars = chars_of(line);
    let ghost c = chars@;
    let len = chars.len();
    let mut result = String::new();
    let mut i: usize = 0;
    while i < len
        invariant
            c == chars@,
            len == chars.len(),
            i <= len,
            result@ + strip_from(c, i as int) == strip_from(c, 0),
        decreases len - i,
    {
        let ghost before = result@;
        let ghost i0 = i as int;
        if chars[i] == '"' || chars[i] == '\'' {
            let quote = chars[i];
            push_char(&mut result, '_');
            i = i + 1;
            proof {
                lemma_skip_quoted(c, i as int, quote);
            }
            while i < len && chars[i] != quote
                invariant
                    c == chars@,
                    len == chars.len(),
                    i0 < i <= len,
                    skip_quoted(c, i as int, quote) == skip_quoted(c, i0 + 1, quote),
                decreases len - i,
            {
                if chars[i] == '\\' {
                    if len - i >= 2 {
                        i = i + 2;
                    } else {
                        i = len;
                    }
                } else {
                    i = i + 1;
                }
            }
            if i < len {
                i = i + 1;
            }
            proof {
                assert(i as int == skip_quoted(c, i0 + 1, quote));
                assert(result@ + strip_from(c, i as int) =~= before + strip_from(c, i0));
            }
        } else if '0' <= chars[i] && chars[i] <= '9' {
            push_char(&mut result, '_');
            i = i + 1;
            while i < len && (('0' <= chars[i] && chars[i] <= '9') || chars[i] == '.' || chars[i]
                == '_')
                invariant
                    c == chars@,
                    len == chars.len(),
                    i0 < i <= len,
                    skip_number(c, i as int) == skip_number(c, i0 + 1),
                decreases len - i,
            {
                i = i + 1;
            }
            proof {
                assert(result@ + strip_from(c, i as int) =~= before + strip_from(c, i0));
            }
        } else {
            push_char(&mut result, chars[i]);
            i = i + 1;
            proof {
                assert(result@ + strip_from(c, i as int) =~= before + strip_from(c, i0));
            }
        }
    }
    proof {
        assert(result@ + strip_from(c, i as int) =~= result@);
    }
    result
}

/// Adds a bump and an `added ...` signal for each pattern whose keyword
/// occurs in the added text and not in the removed text.
fn score_keywords(
    added: &[char],
    removed: &[char],
    table: &Vec<(&'static str, &'static str)>,
    intent: ChangeIntent,
    delta: i64,
    bumps: &mut Vec<Bump>,
    signals: &mut Vec<String>,
)
    ensures
        final(bumps)@ == old(bumps)@ + hit_bumps(
            keyword_hits(table_view(table@), added@, removed@),
            intent,
            delta,
        ),
        strings_view(final(signals)@) == strings_view(old(signals)@) + hit_signals(
            keyword_hits(table_view(table@), added@, removed@),
        ),
{
    let ghost tv = table_view(table@);
    let ghost b0 = bumps@;
    let ghost s0 = strings_view(signals@);
    let mut i: usize = 0;
    proof {
        assert(tv.take(0) =~= Seq::<Pattern>::empty());
        assert(b0 =~= b0 + hit_bumps(keyword_hits(tv.take(0), added@, removed@), intent, delta));
        assert(s0 =~= s0 + hit_signals(keyword_hits(tv.take(0), added@, removed@)));
    }
    while i < table.len()
        invariant
            i <= table.len(),
            tv == table_view(table@),
            bumps@ == b0 + hit_bumps(keyword_hits(tv.take(i as int), added@, removed@), intent, delta),
            strings_view(signals@) == s0 + hit_signals(keyword_hits(tv.take(i as int), added@, removed@)),
        decreases table.len() - i,
    {
        let (pat, sig) = table[i];
        let pc = chars_of(pat);
        let ghost hb = bumps@;
        let ghost hs = strings_view(signals@);
        let hit = contains_chars(added, pc.as_slice()) && !contains_chars(removed, pc.as_slice());
        if hit {
            bumps.push((intent, delta));
            let mut text = String::from_str("added ");
            push_str(&mut text, sig);
            let ghost sv = signals@;
            signals.push(text);
            proof {
                assert(strings_view(signals@) =~= strings_view(sv).push("added "@ + sig@));
            }
        }
        proof {
            let f = |p: Pattern| contains_seq(added@, p.0) && !contains_seq(removed@, p.0);
            let a = tv.take(i + 1);
            let b = tv.take(i as int);
            assert(a.drop_last() =~= b);
            assert(a.last() == tv[i as int]);
            assert(tv[i as int] == (pat@, sig@));
            reveal_with_fuel(Seq::filter, 1);
            if hit {
                assert(a.filter(f) =~= b.filter(f).push(tv[i as int]));
                assert(hit_bumps(a.filter(f), intent, delta) =~= hit_bumps(b.filter(f), intent, delta).push((intent, delta)));
                assert(hit_signals(a.filter(f)) =~= hit_signals(b.filter(f)).push("added "@ + sig@));
                assert(bumps@ =~= b0 + hit_bumps(a.filter(f), intent, delta));
                assert(strings_view(signals@) =~= s0 + hit_signals(a.filter(f)));
            } else {
                assert(a.filter(f) =~= b.filter(f));
            }
        }
        i = i + 1;
    }
    proof {
        assert(tv.take(table.len() as int) =~= tv);
    }
}

/// Whether some line, without leading white space, starts with one of the
/// condition keywords.
fn starts_with_condition(lines: &Vec<String>) -> (r: bool)
    ensures
        r == starts_with_any(strings_view(lines@), condition_keywords()),
{
    let kws = condition_table();
    let ghost kv = kws@.map_values(|k: &str| k@);
    let ghost lv = strings_view(lines@);
    let mut j: usize = 0;
    while j < lines.len()
        invariant
            j <= lines.len(),
            kv == condition_keywords(),
            kv == kws@.map_values(|k: &str| k@),
            lv == strings_view(lines@),
            forall|k: int, jj: int|
                0 <= k < kv.len() && 0 <= jj < j ==> !#[trigger] occurs_at(
                    trim_start(lv[jj]),
                    kv[k],
                    0,
                ),
        decreases lines.len() - j,
    {
        let lc = chars_of(lines[j].as_str());
        let t = trim_start_chars(lc.as_slice());
        let mut k: usize = 0;
        while k < kws.len()
            invariant
                j < lines.len(),
                k <= kws.len(),
                kv == kws@.map_values(|k: &str| k@),
                kv == condition_keywords(),
                lv == strings_view(lines@),
                t@ == trim_start(lv[j as int]),
                forall|kk: int| 0 <= kk < k ==> !#[trigger] occurs_at(t@, kv[kk], 0),
            decreases kws.len() - k,
        {
            let kc = chars_of(kws[k]);
            if starts_with_chars(t.as_slice(), kc.as_slice()) {
                assert(occurs_at(trim_start(lv[j as int]), kv[k as int], 0));
                return true;
            }
            k = k + 1;
        }
        j = j + 1;
    }
    false
}

/// Whether every removed line matches its added counterpart once literals
/// are stripped (with equally many lines, at least one).
fn literals_only(added: &Vec<String>, removed: &Vec<String>) -> (r: bool)
    ensures
        r == only_literals_changed(strings_view(added@), strings_view(removed@)),
{
    if removed.len() == 0 || removed.len() != added.len() {
        return false;
    }
    let ghost av = strings_view(added@);
    let ghost rv = strings_view(removed@);
    let mut i: usize = 0;
    while i < removed.len()
        invariant
            i <= removed.len(),
            removed.len() == added.len(),
            av == strings_view(added@),
            rv == strings_view(removed@),
            forall|k: int| 0 <= k < i ==> strip_literals_spec(#[trigger] rv[k]) == strip_literals_spec(av[k]),
        decreases removed.len() - i,
    {
        let a = strip_literals(added[i].as_str());
        let b = strip_literals(removed[i].as_str());
        if !(a == b) {
            assert(strip_literals_spec(rv[i as int]) != strip_literals_spec(av[i as int]));
            return false;
        }
        i = i + 1;
    }
    true
}

fn score_volume(a: usize, r: usize, equal_count: usize, bumps: &mut Vec<Bump>, signals: &mut Vec<String>)
    ensures
        final(bumps)@ == old(bumps)@ + volume_bumps(a as nat, r as nat, equal_count as nat),
        strings_view(final(signals)@) == strings_view(old(signals)@) + volume_signals(
            a as nat,
            r as nat,
            equal_count as nat,
        ),
{
    let ghost b0 = bumps@;
    let ghost s0 = strings_view(signals@);
    let a = a as u128;
    let r = r as u128;
    let total = a + r;
    let small = total <= 6 && total * 10 < 3 * (total + equal_count as u128);
    if small {
        push_bump(bumps, ChangeIntent::BugFix, 4);
        push_signal(signals, "small targeted change");
    }
    let ghost b1 = bumps@;
    let ghost s1 = strings_view(signals@);
    let more_added = a * 10 > 8 * total && a > 3;
    if more_added {
        push_bump(bumps, ChangeIntent::Feature, 4);
        push_signal(signals, "mostly new code added");
    }
    let ghost b2 = bumps@;
    let ghost s2 = strings_view(signals@);
    let more_removed = a * 10 < 2 * total && r > 3;
    if more_removed {
        push_bump(bumps, ChangeIntent::Cleanup, 4);
        push_signal(signals, "mostly code removed");
    }
    proof {
        assert(b1 =~= b0 + opt_bump(small, (ChangeIntent::BugFix, 4i64)));
        assert(b2 =~= b1 + opt_bump(more_added, (ChangeIntent::Feature, 4i64)));
        assert(bumps@ =~= b2 + opt_bump(more_removed, (ChangeIntent::Cleanup, 4i64)));
        assert(s1 =~= s0 + opt_signal(small, "small targeted change"@));
        assert(s2 =~= s1 + opt_signal(more_added, "mostly new code added"@));
        assert(strings_view(signals@) =~= s2 + opt_signal(more_removed, "mostly code removed"@));
    }
}

#[verifier::rlimit(30)]
fn score_content(
    added: &Vec<String>,
    removed: &Vec<String>,
    bumps: &mut Vec<Bump>,
    signals: &mut Vec<String>,
)
    ensures
        final(bumps)@ == old(bumps)@ + content_bumps(strings_view(added@), strings_view(removed@)),
        strings_view(final(signals)@) == strings_view(old(signals)@) + content_signals(
            strings_view(added@),
            strings_view(removed@),
        ),
{
    let ghost av = strings_view(added@);
    let ghost rv = strings_view(removed@);
    let ghost b0 = bumps@;
    let ghost s0 = strings_view(signals@);
    let all_added_s = join_strings(added, " ");
    let all_removed_s = join_strings(removed, " ");
    let all_added = chars_of(all_added_s.as_str());
    let all_removed = chars_of(all_removed_s.as_str());
    let bug = bugfix_table();
    score_keywords(
        all_added.as_slice(),
        all_removed.as_slice(),
        &bug,
        ChangeIntent::BugFix,
        3,
        bumps,
        signals,
    );
    let ghost b1 = bumps@;
    let ghost s1 = strings_view(signals@);
    let cond = starts_with_condition(added) && starts_with_condition(removed) && added.len() as u128
        + removed.len() as u128 <= 8;
    if cond {
        push_bump(bumps, ChangeIntent::BugFix, 5);
        push_signal(signals, "condition/guard modified");
    }
    let ghost b2 = bumps@;
    let ghost s2 = strings_view(signals@);
    let err = error_table();
    score_keywords(
        all_added.as_slice(),
        all_removed.as_slice(),
        &err,
        ChangeIntent::ErrorHandling,
        3,
        bumps,
        signals,
    );
    let sec = security_table();
    score_keywords(
        all_added.as_slice(),
        all_removed.as_slice(),
        &sec,
        ChangeIntent::Security,
        4,
        bumps,
        signals,
    );
    let perf = performance_table();
    score_keywords(
        all_added.as_slice(),
        all_removed.as_slice(),
        &perf,
        ChangeIntent::Performance,
        3,
        bumps,
        signals,
    );
    let ghost b5 = bumps@;
    let ghost s5 = strings_view(signals@);
    let lit = literals_only(added, removed);
    if lit {
        push_bump(bumps, ChangeIntent::BugFix, 4);
        push_signal(signals, "only literal values changed");
    }
    proof {
        assert(cond == condition_modified(av, rv));
        assert(b2 =~= b1 + opt_bump(cond, (ChangeIntent::BugFix, 5i64)));
        assert(bumps@ =~= b5 + opt_bump(lit, (ChangeIntent::BugFix, 4i64)));
        assert(s2 =~= s1 + opt_signal(cond, "condition/guard modified"@));
        assert(strings_view(signals@) =~= s5 + opt_signal(lit, "only literal values changed"@));
        assert(bumps@ =~= b0 + content_bumps(av, rv));
        assert(strings_view(signals@) =~= s0 + content_signals(av, rv));
    }
}

/// Phase 2 on lines already lower-cased: bumps and signals from the volume
/// of added and removed lines, the keywords that appear, modified guards and
/// literal-only edits.
pub fn score_line_patterns(
    added: &Vec<String>,
    removed: &Vec<String>,
    equal_count: usize,
    bumps: &mut Vec<Bump>,
    signals: &mut Vec<String>,
)
    ensures
        final(bumps)@ == old(bumps)@ + pattern_bumps(
            strings_view(added@),
            strings_view(removed@),
            equal_count as nat,
        ),
        strings_view(final(signals)@) == strings_view(old(signals)@) + pattern_signals(
            strings_view(added@),
            strings_view(removed@),
            equal_count as nat,
        ),
{
    let ghost av = strings_view(added@);
    let ghost rv = strings_view(removed@);
    let ghost b0 = bumps@;
    let ghost s0 = strings_view(signals@);
    if added.len() == 0 && removed.len() == 0 {
        push_bump(bumps, ChangeIntent::Cleanup, 6);
        push_signal(signals, "no effective changes (formatting only)");
        proof {
            assert(bumps@ =~= b0 + pattern_bumps(av, rv, equal_count as nat));
            assert(strings_view(signals@) =~= s0 + pattern_signals(av, rv, equal_count as nat));
        }
        return;
    }
    score_volume(added.len(), removed.len(), equal_count, bumps, signals);
    score_content(added, removed, bumps, signals);
    proof {
        assert(bumps@ =~= b0 + pattern_bumps(av, rv, equal_count as nat));
        assert(strings_view(signals@) =~= s0 + pattern_signals(av, rv, equal_count as nat));
    }
}

/// The lower-cased texts of the lines with the given tag, in order.
pub open spec fn lowered_lines(lines: Seq<LineView>, tag: DiffLineTag) -> Seq<Seq<char>> {
    lines.filter(|l: LineView| l.tag == tag).map_values(|l: LineView| lowercase(spans_text(l.spans)))
}

pub open spec fn count_tag(lines: Seq<LineView>, tag: DiffLineTag) -> nat {
    lines.filter(|l: LineView| l.tag == tag).len()
}

pub open spec fn diff_bumps(lines: Seq<LineView>) -> Seq<Bump> {
    pattern_bumps(
        lowered_lines(lines, DiffLineTag::Insert),
        lowered_lines(lines, DiffLineTag::Delete),
        count_tag(lines, DiffLineTag::Equal),
    )
}

pub open spec fn diff_signals(lines: Seq<LineView>) -> Seq<Seq<char>> {
    pattern_signals(
        lowered_lines(lines, DiffLineTag::Insert),
        lowered_lines(lines, DiffLineTag::Delete),
        count_tag(lines, DiffLineTag::Equal),
    )
}

/// Phase 2: bumps and signals from the lines of a body diff, lower-cased.
pub fn score_diff_patterns(diff: &BodyDiff, bumps: &mut Vec<Bump>, signals: &mut Vec<String>)
    ensures
        final(bumps)@ == old(bumps)@ + diff_bumps(diff@),
        strings_view(final(signals)@) == strings_view(old(signals)@) + diff_signals(diff@),
{
    let ghost lv = diff@;
    let mut added: Vec<String> = Vec::new();
    let mut removed: Vec<String> = Vec::new();
    let mut equal_count: usize = 0;
    let mut i: usize = 0;
    while i < diff.lines.len()
        invariant
            i <= diff.lines.len(),
            lv == diff@,
            strings_view(added@) == lowered_lines(lv.take(i as int), DiffLineTag::Insert),
            strings_view(removed@) == lowered_lines(lv.take(i as int), DiffLineTag::Delete),
            equal_count == count_tag(lv.take(i as int), DiffLineTag::Equal),
            equal_count <= i,
        decreases diff.lines.len() - i,
    {
        let line = &diff.lines[i];
        let text = line.text();
        let lower = to_lowercase(text.as_str());
        let ghost pa = added@;
        let ghost pr = removed@;
        match line.tag {
            DiffLineTag::Insert => {
                added.push(lower);
            },
            DiffLineTag::Delete => {
                removed.push(lower);
            },
            DiffLineTag::Equal => {
                equal_count = equal_count + 1;
            },
        }
        proof {
            let a = lv.take(i + 1);
            let b = lv.take(i as int);
            assert(a.drop_last() =~= b);
            assert(a.last() == line@);
            reveal_with_fuel(Seq::filter, 1);
            let fi = |l: LineView| l.tag == DiffLineTag::Insert;
            let fd = |l: LineView| l.tag == DiffLineTag::Delete;
            let fe = |l: LineView| l.tag == DiffLineTag::Equal;
            let g = |l: LineView| lowercase(spans_text(l.spans));
            if line.tag == DiffLineTag::Insert {
                assert(a.filter(fi) =~= b.filter(fi).push(line@));
                assert(a.filter(fi).map_values(g) =~= b.filter(fi).map_values(g).push(lower@));
                assert(strings_view(added@) =~= strings_view(pa).push(lower@));
            } else {
                assert(a.filter(fi) =~= b.filter(fi));
            }
            if line.tag == DiffLineTag::Delete {
                assert(a.filter(fd) =~= b.filter(fd).push(line@));
                assert(a.filter(fd).map_values(g) =~= b.filter(fd).map_values(g).push(lower@));
                assert(strings_view(removed@) =~= strings_view(pr).push(lower@));
            } else {
                assert(a.filter(fd) =~= b.filter(fd));
            }
            if line.tag == DiffLineTag::Equal {
                assert(a.filter(fe) =~= b.filter(fe).push(line@));
            } else {
                assert(a.filter(fe) =~= b.filter(fe));
            }
        }
        i = i + 1;
    }
    proof {
        assert(lv.take(diff.lines.len() as int) =~= lv);
    }
    score_line_patterns(&added, &removed, equal_count, bumps, signals);
}

// ---------------------------------------------------------------- phase 3

/// Bumps for a signature change that only adds parameters.
pub open spec fn additive_bumps(k: ChangeKindView) -> Seq<Bump> {
    match k {
        ChangeKindView::SignatureChanged { details } => opt_bump(
            details.params_added.len() > 0 && details.params_removed.len() == 0,
            (ChangeIntent::Feature, 4i64),
        ) + opt_bump(
            details.params_added.len() > 0 && details.params_removed.len() == 0,
            (ChangeIntent::ApiChange, -2i64),
        ),
        _ => Seq::empty(),
    }
}

pub open spec fn additive_signals(k: ChangeKindView) -> Seq<Seq<char>> {
    match k {
        ChangeKindView::SignatureChanged { details } => opt_signal(
            details.params_added.len() > 0 && details.params_removed.len() == 0,
            "additive parameter change (non-breaking)"@,
        ),
        _ => Seq::empty(),
    }
}

pub open spec fn names_test(name: Seq<char>) -> bool {
    contains_seq(name, "test"@) || occurs_at(name, "test_"@, 0)
}

pub open spec fn names_legacy(name: Seq<char>) -> bool {
    contains_seq(name, "deprecated"@) || contains_seq(name, "legacy"@)
}

pub open spec fn names_check(name: Seq<char>) -> bool {
    contains_seq(name, "validate"@) || contains_seq(name, "sanitize"@) || contains_seq(
        name,
        "check"@,
    )
}

pub open spec fn names_speed(name: Seq<char>) -> bool {
    contains_seq(name, "cache"@) || contains_seq(name, "optimize"@) || contains_seq(name, "fast"@)
}

/// Bumps from the (lower-cased) symbol name and the kind of change.
pub open spec fn context_bumps(name: Seq<char>, k: ChangeKindView) -> Seq<Bump> {
    hint_bumps(name) + additive_bumps(k)
}

pub open spec fn context_signals(name: Seq<char>, k: ChangeKindView) -> Seq<Seq<char>> {
    hint_signals(name) + additive_signals(k)
}

fn has(hay: &[char], needle: &str) -> (r: bool)
    ensures
        r == contains_seq(hay@, needle@),
{
    let n = chars_of(needle);
    contains_chars(hay, n.as_slice())
}

pub open spec fn hint_bumps(name: Seq<char>) -> Seq<Bump> {
    opt_bump(names_test(name), (ChangeIntent::Feature, 2i64)) + opt_bump(
        names_legacy(name),
        (ChangeIntent::Cleanup, 4i64),
    ) + opt_bump(names_check(name), (ChangeIntent::Security, 2i64)) + opt_bump(
        names_speed(name),
        (ChangeIntent::Performance, 2i64),
    )
}

pub open spec fn hint_signals(name: Seq<char>) -> Seq<Seq<char>> {
    opt_signal(names_test(name), "test function"@) + opt_signal(
        names_legacy(name),
        "deprecated/legacy symbol"@,
    )
}

fn score_name_hints(name: &str, bumps: &mut Vec<Bump>, signals: &mut Vec<String>)
    ensures
        final(bumps)@ == old(bumps)@ + hint_bumps(name@),
        strings_view(final(signals)@) == strings_view(old(signals)@) + hint_signals(name@),
{
    let ghost b0 = bumps@;
    let ghost s0 = strings_view(signals@);
    let n = chars_of(name);
    let prefix = chars_of("test_");
    let test = has(n.as_slice(), "test") || starts_with_chars(n.as_slice(), prefix.as_slice());
    if test {
        push_bump(bumps, ChangeIntent::Feature, 2);
        push_signal(signals, "test function");
    }
    let ghost b1 = bumps@;
    let ghost s1 = strings_view(signals@);
    let legacy = has(n.as_slice(), "deprecated") || has(n.as_slice(), "legacy");
    if legacy {
        push_bump(bumps, ChangeIntent::Cleanup, 4);
        push_signal(signals, "deprecated/legacy symbol");
    }
    let ghost b2 = bumps@;
    let check = has(n.as_slice(), "validate") || has(n.as_slice(), "sanitize") || has(
        n.as_slice(),
        "check",
    );
    if check {
        push_bump(bumps, ChangeIntent::Security, 2);
    }
    let ghost b3 = bumps@;
    let speed = has(n.as_slice(), "cache") || has(n.as_slice(), "optimize") || has(
        n.as_slice(),
        "fast",
    );
    if speed {
        push_bump(bumps, ChangeIntent::Performance, 2);
    }
    proof {
        assert(b1 =~= b0 + opt_bump(test, (ChangeIntent::Feature, 2i64)));
        assert(b2 =~= b1 + opt_bump(legacy, (ChangeIntent::Cleanup, 4i64)));
        assert(b3 =~= b2 + opt_bump(check, (ChangeIntent::Security, 2i64)));
        assert(bumps@ =~= b3 + opt_bump(speed, (ChangeIntent::Performance, 2i64)));
        assert(s1 =~= s0 + opt_signal(test, "test function"@));
        assert(strings_view(signals@) =~= s1 + opt_signal(legacy, "deprecated/legacy symbol"@));
    }
}

/// Phase 3 on a symbol name already lower-cased: hints in the name, and
/// signature changes that only add parameters.
pub fn score_name_context(
    name: &str,
    kind: &ChangeKind,
    bumps: &mut Vec<Bump>,
    signals: &mut Vec<String>,
)
    ensures
        final(bumps)@ == old(bumps)@ + context_bumps(name@, kind@),
        strings_view(final(signals)@) == strings_view(old(signals)@) + context_signals(name@, kind@),
{
    let ghost b0 = bumps@;
    let ghost s0 = strings_view(signals@);
    score_name_hints(name, bumps, signals);
    let ghost b4 = bumps@;
    let ghost s4 = strings_view(signals@);
    match kind {
        ChangeKind::SignatureChanged { details } => {
            if details.params_added.len() > 0 && details.params_removed.len() == 0 {
                push_bump(bumps, ChangeIntent::Feature, 4);
                push_bump(bumps, ChangeIntent::ApiChange, -2);
                push_signal(signals, "additive parameter change (non-breaking)");
            }
        },
        _ => {},
    }
    proof {
        assert(bumps@ =~= b4 + additive_bumps(kind@));
        assert(strings_view(signals@) =~= s4 + additive_signals(kind@));
        assert(bumps@ =~= b0 + context_bumps(name@, kind@));
        assert(strings_view(signals@) =~= s0 + context_signals(name@, kind@));
    }
}

/// The lower-cased name of the changed symbol.
pub open spec fn lowered_name(c: ChangeView) -> Seq<char> {
    lowercase(change_symbol_name(c.old_symbol, c.new_symbol))
}

/// Phase 3: hints in the changed symbol's name, lower-cased.
pub fn score_symbol_context(
    change: &SemanticChange,
    bumps: &mut Vec<Bump>,
    signals: &mut Vec<String>,
)
    ensures
        final(bumps)@ == old(bumps)@ + context_bumps(lowered_name(change@), change.kind@),
        strings_view(final(signals)@) == strings_view(old(signals)@) + context_signals(
            lowered_name(change@),
            change.kind@,
        ),
{
    let name = to_lowercase(change.symbol_name());
    score_name_context(name.as_str(), &change.kind, bumps, signals);
}

// ------------------------------------------------------------ whole change

/// All bumps of a change, phase by phase.
pub open spec fn change_bumps(c: ChangeView) -> Seq<Bump> {
    structural_bumps(c.kind) + match c.body_diff {
        Some(d) => diff_bumps(d),
        None => Seq::empty(),
    } + context_bumps(lowered_name(c), c.kind)
}

pub open spec fn change_signals(c: ChangeView) -> Seq<Seq<char>> {
    structural_signals(c.kind) + match c.body_diff {
        Some(d) => diff_signals(d),
        None => Seq::empty(),
    } + context_signals(lowered_name(c), c.kind)
}

/// The intent that the change's structure, diff lines and name point to.
pub open spec fn classify_intent_spec(c: ChangeView) -> IntentView {
    resolve_spec(change_bumps(c), change_signals(c))
}

// ------------------------------------------------------------ renames

/// What the bumps add, at most, to the tally of intent `j`.
pub open spec fn gain(bumps: Seq<Bump>, j: int) -> int
    decreases bumps.len(),
{
    if bumps.len() == 0 {
        0
    } else {
        gain(bumps.drop_last(), j) + if bumps.last().0.index() == j && bumps.last().1 > 0 {
            bumps.last().1 as int
        } else {
            0
        }
    }
}

/// No bump lowers a tally.
pub open spec fn no_loss(bumps: Seq<Bump>) -> bool {
    forall|k: int| 0 <= k < bumps.len() ==> (#[trigger] bumps[k]).1 >= 0
}

proof fn lemma_gain_add(a: Seq<Bump>, b: Seq<Bump>, j: int)
    ensures
        gain(a + b, j) == gain(a, j) + gain(b, j),
    decreases b.len(),
{
    if b.len() == 0 {
        assert(a + b =~= a);
    } else {
        lemma_gain_add(a, b.drop_last(), j);
        assert((a + b).drop_last() =~= a + b.drop_last());
        assert((a + b).last() == b.last());
    }
}

proof fn lemma_tally_split(s: Seq<int>, a: Seq<Bump>, b: Seq<Bump>)
    ensures
        tally_from(s, a + b) == tally_from(tally_from(s, a), b),
    decreases b.len(),
{
    if b.len() == 0 {
        assert(a + b =~= a);
    } else {
        lemma_tally_split(s, a, b.drop_last());
        assert((a + b).drop_last() =~= a + b.drop_last());
        assert((a + b).last() == b.last());
    }
}

proof fn lemma_tally_gain(s: Seq<int>, bumps: Seq<Bump>)
    requires
        s.len() == 8,
        forall|j: int| 0 <= j < 8 ==> s[j] >= 0,
        no_loss(bumps),
    ensures
        tally_from(s, bumps).len() == 8,
        forall|j: int|
            0 <= j < 8 ==> s[j] <= #[trigger] tally_from(s, bumps)[j] <= s[j] + gain(bumps, j),
    decreases bumps.len(),
{
    if bumps.len() > 0 {
        let init = bumps.drop_last();
        assert forall|k: int| 0 <= k < init.len() implies (#[trigger] init[k]).1 >= 0 by {
            assert(init[k] == bumps[k]);
        }
        lemma_tally_gain(s, init);
        assert(bumps[bumps.len() - 1].1 >= 0);
    }
}

proof fn lemma_opt_gain(c: bool, b: Bump, j: int)
    ensures
        gain(opt_bump(c, b), j) == if c && b.0.index() == j && b.1 > 0 {
            b.1 as int
        } else {
            0
        },
        no_loss(opt_bump(c, b)) <== b.1 >= 0,
{
    if c {
        assert(seq![b].drop_last() =~= Seq::<Bump>::empty());
        assert(gain(seq![b].drop_last(), j) == 0);
        assert(seq![b].last() == b);
    }
}

proof fn lemma_no_loss_add(a: Seq<Bump>, b: Seq<Bump>)
    requires
        no_loss(a),
        no_loss(b),
    ensures
        no_loss(a + b),
{
    assert forall|k: int| 0 <= k < (a + b).len() implies (#[trigger] (a + b)[k]).1 >= 0 by {
        if k < a.len() {
            assert((a + b)[k] == a[k]);
        } else {
            assert((a + b)[k] == b[k - a.len()]);
        }
    }
}

/// A rename without a change of body is a refactoring: its primary intent
/// is Refactoring with full confidence, whatever the name hints at, and
/// its first signal says that the symbol was renamed.
pub proof fn lemma_rename_is_refactoring(c: ChangeView)
    requires
        c.kind is Renamed,
        c.body_diff is None,
    ensures
        classify_intent_spec(c).primary == ChangeIntent::Refactoring,
        classify_intent_spec(c).confidence.num == classify_intent_spec(c).confidence.den,
        classify_intent_spec(c).confidence.den > 0,
        classify_intent_spec(c).signals[0] == "symbol renamed"@,
{
    let name = lowered_name(c);
    let h = hint_bumps(name);
    let fb = (ChangeIntent::Feature, 2i64);
    let cb = (ChangeIntent::Cleanup, 4i64);
    let sb = (ChangeIntent::Security, 2i64);
    let pb = (ChangeIntent::Performance, 2i64);
    let h1 = opt_bump(names_test(name), fb);
    let h2 = opt_bump(names_legacy(name), cb);
    let h3 = opt_bump(names_check(name), sb);
    let h4 = opt_bump(names_speed(name), pb);
    assert(h == h1 + h2 + h3 + h4);
    lemma_opt_gain(names_test(name), fb, 0);
    lemma_opt_gain(names_legacy(name), cb, 0);
    lemma_opt_gain(names_check(name), sb, 0);
    lemma_opt_gain(names_speed(name), pb, 0);
    lemma_no_loss_add(h1, h2);
    lemma_no_loss_add(h1 + h2, h3);
    lemma_no_loss_add(h1 + h2 + h3, h4);
    assert forall|j: int| 0 <= j < 8 implies gain(h, j) <= 4 && (j == 1 ==> gain(h, j) == 0) by {
        lemma_opt_gain(names_test(name), fb, j);
        lemma_opt_gain(names_legacy(name), cb, j);
        lemma_opt_gain(names_check(name), sb, j);
        lemma_opt_gain(names_speed(name), pb, j);
        lemma_gain_add(h1, h2, j);
        lemma_gain_add(h1 + h2, h3, j);
        lemma_gain_add(h1 + h2 + h3, h4, j);
    }
    let first = seq![(ChangeIntent::Refactoring, 8i64)];
    let bumps = change_bumps(c);
    assert(bumps =~= first + h);
    let zero = Seq::new(8, |i: int| 0int);
    lemma_tally_split(zero, first, h);
    let t1 = tally_from(zero, first);
    assert(first.drop_last() =~= Seq::<Bump>::empty());
    assert(tally_from(zero, first.drop_last()) == zero);
    assert(first.last() == (ChangeIntent::Refactoring, 8i64));
    assert(t1 == bump(zero, (ChangeIntent::Refactoring, 8i64)));
    lemma_tally_gain(t1, h);
    let t = tally(bumps);
    assert(t == tally_from(t1, h));
    assert(t[1] == 8);
    assert forall|j: int| 0 <= j < 8 && j != 1 implies 0 <= #[trigger] t[j] <= 4 by {
        assert(t1[j] == 0);
    }
    lemma_max_tally_bound(t, 8);
    assert(max_tally(t) == 8);
    let sh = shares(t);
    assert(sh[1].0 == Ratio { num: 8, den: 8 });
    assert forall|j: int| 0 <= j < sh.len() && j != 1 implies (#[trigger] sh[j]).0.lt(sh[1].0) by {
        assert(0 <= t[j] <= 4);
        assert(sh[j].0 == Ratio { num: t[j] as u64, den: 8 });
        let a = sh[j].0;
        let b = sh[1].0;
        assert(a.num * b.den < b.num * a.den) by (nonlinear_arith)
            requires
                a.num <= 4,
                b.den == 8,
                b.num == 8,
                a.den == 8,
        ;
    }
    lemma_sort_desc_top(sh, 1);
}


proof fn lemma_gain_nonneg(bumps: Seq<Bump>, j: int)
    ensures
        gain(bumps, j) >= 0,
    decreases bumps.len(),
{
    if bumps.len() > 0 {
        lemma_gain_nonneg(bumps.drop_last(), j);
    }
}

proof fn lemma_tally_exact(s: Seq<int>, bumps: Seq<Bump>)
    requires
        s.len() == 8,
        forall|j: int| 0 <= j < 8 ==> s[j] >= 0,
        no_loss(bumps),
    ensures
        tally_from(s, bumps).len() == 8,
        forall|j: int| 0 <= j < 8 ==> #[trigger] tally_from(s, bumps)[j] == s[j] + gain(bumps, j),
    decreases bumps.len(),
{
    if bumps.len() > 0 {
        let init = bumps.drop_last();
        assert forall|k: int| 0 <= k < init.len() implies (#[trigger] init[k]).1 >= 0 by {
            assert(init[k] == bumps[k]);
        }
        lemma_tally_exact(s, init);
        assert(bumps[bumps.len() - 1].1 >= 0);
        let t0 = tally_from(s, init);
        let b = bumps.last();
        assert forall|j: int| 0 <= j < 8 implies #[trigger] tally_from(s, bumps)[j] == s[j] + gain(bumps, j) by {
            lemma_gain_nonneg(init, j);
            assert(t0[j] == s[j] + gain(init, j));
        }
    }
}

/// What the name hints can add: 2 to Feature, 4 to Cleanup, 2 to Security
/// and 2 to Performance, and nothing to any other intent.
proof fn lemma_hint_gain(name: Seq<char>)
    ensures
        no_loss(hint_bumps(name)),
        forall|j: int|
            0 <= j < 8 ==> #[trigger] gain(hint_bumps(name), j) <= if j == 7 {
                4int
            } else if j == 2 || j == 4 || j == 5 {
                2int
            } else {
                0int
            },
        forall|j: int| 0 <= j < 8 ==> #[trigger] gain(hint_bumps(name), j) >= 0,
{
    let fb = (ChangeIntent::Feature, 2i64);
    let cb = (ChangeIntent::Cleanup, 4i64);
    let sb = (ChangeIntent::Security, 2i64);
    let pb = (ChangeIntent::Performance, 2i64);
    let h1 = opt_bump(names_test(name), fb);
    let h2 = opt_bump(names_legacy(name), cb);
    let h3 = opt_bump(names_check(name), sb);
    let h4 = opt_bump(names_speed(name), pb);
    let h = hint_bumps(name);
    assert(h == h1 + h2 + h3 + h4);
    lemma_opt_gain(names_test(name), fb, 0);
    lemma_opt_gain(names_legacy(name), cb, 0);
    lemma_opt_gain(names_check(name), sb, 0);
    lemma_opt_gain(names_speed(name), pb, 0);
    lemma_no_loss_add(h1, h2);
    lemma_no_loss_add(h1 + h2, h3);
    lemma_no_loss_add(h1 + h2 + h3, h4);
    assert forall|j: int| 0 <= j < 8 implies #[trigger] gain(h, j) <= (if j == 7 {
        4int
    } else if j == 2 || j == 4 || j == 5 {
        2int
    } else {
        0int
    }) && gain(h, j) >= 0 by {
        lemma_opt_gain(names_test(name), fb, j);
        lemma_opt_gain(names_legacy(name), cb, j);
        lemma_opt_gain(names_check(name), sb, j);
        lemma_opt_gain(names_speed(name), pb, j);
        lemma_gain_add(h1, h2, j);
        lemma_gain_add(h1 + h2, h3, j);
        lemma_gain_add(h1 + h2 + h3, h4, j);
    }
}

/// A tally led by one intent makes it the primary one, with full confidence.
proof fn lemma_primary_of_tally(bumps: Seq<Bump>, signals: Seq<Seq<char>>, x: int)
    requires
        tally(bumps).len() == 8,
        0 <= x < 8,
        0 < tally(bumps)[x] <= 100,
        forall|j: int| 0 <= j < 8 && j != x ==> 0 <= #[trigger] tally(bumps)[j] < tally(bumps)[x],
    ensures
        resolve_spec(bumps, signals).primary == intent_at(x),
        resolve_spec(bumps, signals).confidence.num == resolve_spec(bumps, signals).confidence.den,
        resolve_spec(bumps, signals).confidence.den > 0,
{
    let t = tally(bumps);
    lemma_max_tally_bound(t, t[x]);
    assert(max_tally(t) == t[x]);
    let sh = shares(t);
    let top = t[x];
    assert(sh[x].0 == Ratio { num: top as u64, den: top as u64 });
    assert forall|j: int| 0 <= j < sh.len() && j != x implies (#[trigger] sh[j]).0.lt(sh[x].0) by {
        assert(sh[j].0 == Ratio { num: t[j] as u64, den: top as u64 });
        let a = sh[j].0;
        let b = sh[x].0;
        assert(a.num * b.den < b.num * a.den) by (nonlinear_arith)
            requires
                a.num < b.num,
                b.den == b.num,
                a.den == b.num,
                0 <= a.num,
        ;
    }
    lemma_sort_desc_top(sh, x);
}

/// The intent a structural change points to on its own: an addition is a
/// feature, a deletion a cleanup, a rename, move, extraction or inlining a
/// refactoring, a visibility change an API change. Signature and body
/// changes are decided by their details.
pub open spec fn structural_intent(k: ChangeKindView) -> Option<ChangeIntent> {
    match k {
        ChangeKindView::Added => Some(ChangeIntent::Feature),
        ChangeKindView::Deleted => Some(ChangeIntent::Cleanup),
        ChangeKindView::Renamed { .. } => Some(ChangeIntent::Refactoring),
        ChangeKindView::Moved { .. } => Some(ChangeIntent::Refactoring),
        ChangeKindView::MovedAndModified { .. } => Some(ChangeIntent::Refactoring),
        ChangeKindView::Extracted { .. } => Some(ChangeIntent::Refactoring),
        ChangeKindView::Inlined { .. } => Some(ChangeIntent::Refactoring),
        ChangeKindView::VisibilityChanged { .. } => Some(ChangeIntent::ApiChange),
        _ => None,
    }
}

/// A change without a body diff whose kind points to an intent on its own
/// is classified with that intent first, with full confidence, whatever
/// its name hints at.
#[verifier::rlimit(50)]
pub proof fn lemma_structural_intent(c: ChangeView)
    requires
        c.body_diff is None,
        structural_intent(c.kind) is Some,
    ensures
        classify_intent_spec(c).primary == structural_intent(c.kind)->0,
        classify_intent_spec(c).confidence.num == classify_intent_spec(c).confidence.den,
        classify_intent_spec(c).confidence.den > 0,
{
    let name = lowered_name(c);
    let h = hint_bumps(name);
    let first = structural_bumps(c.kind);
    lemma_hint_gain(name);
    let bumps = change_bumps(c);
    assert(bumps =~= first + h);
    let zero = Seq::new(8, |i: int| 0int);
    lemma_tally_split(zero, first, h);
    let t1 = tally_from(zero, first);
    assert(first.len() <= 2);
    assert forall|k: int| 0 <= k < first.len() implies (#[trigger] first[k]).1 >= 0 by {}
    lemma_tally_exact(zero, first);
    assert forall|j: int| 0 <= j < 8 implies #[trigger] t1[j] >= 0 by {
        lemma_gain_nonneg(first, j);
    }
    lemma_tally_exact(t1, h);
    let t = tally(bumps);
    assert(t == tally_from(t1, h));
    let x = structural_intent(c.kind)->0.index();
    if first.len() == 1 {
        let a = first[0];
        assert(first =~= opt_bump(true, a));
        assert forall|j: int| 0 <= j < 8 implies #[trigger] gain(first, j) == (if a.0.index() == j {
            a.1 as int
        } else {
            0
        }) by {
            lemma_opt_gain(true, a, j);
        }
    } else {
        let a = first[0];
        let b = first[1];
        assert(first =~= opt_bump(true, a) + opt_bump(true, b));
        assert forall|j: int| 0 <= j < 8 implies #[trigger] gain(first, j) == (if a.0.index() == j {
            a.1 as int
        } else {
            0
        }) + (if b.0.index() == j {
            b.1 as int
        } else {
            0
        }) by {
            lemma_opt_gain(true, a, j);
            lemma_opt_gain(true, b, j);
            lemma_gain_add(opt_bump(true, a), opt_bump(true, b), j);
        }
    }
    assert forall|j: int| 0 <= j < 8 implies #[trigger] t[j] == gain(first, j) + gain(h, j) by {}
    lemma_primary_of_tally(bumps, change_signals(c), x);
}


proof fn lemma_hits_len(pats: Seq<Pattern>, a: Seq<char>, r: Seq<char>)
    ensures
        keyword_hits(pats, a, r).len() <= pats.len(),
{
    pats.lemma_filter_len(|p: Pattern| contains_seq(a, p.0) && !contains_seq(r, p.0));
}

proof fn lemma_concat_small(a: Seq<Bump>, b: Seq<Bump>)
    requires
        small_bumps(a),
        small_bumps(b),
    ensures
        small_bumps(a + b),
{
    assert forall|k: int| 0 <= k < (a + b).len() implies -10 <= (#[trigger] (a + b)[k]).1 <= 10 by {
        if k < a.len() {
            assert((a + b)[k] == a[k]);
        } else {
            assert((a + b)[k] == b[k - a.len()]);
        }
    }
}

proof fn lemma_hit_bumps_small(hits: Seq<Pattern>, i: ChangeIntent, d: i64)
    requires
        -10 <= d <= 10,
    ensures
        small_bumps(hit_bumps(hits, i, d)),
        hit_bumps(hits, i, d).len() == hits.len(),
{
}

proof fn lemma_pattern_small(added: Seq<Seq<char>>, removed: Seq<Seq<char>>, equal: nat)
    ensures
        pattern_bumps(added, removed, equal).len() <= 60,
        small_bumps(pattern_bumps(added, removed, equal)),
{
    if added.len() + removed.len() > 0 {
        let aa = join(added, " "@);
        let ar = join(removed, " "@);
        lemma_hits_len(bugfix_patterns(), aa, ar);
        lemma_hits_len(error_patterns(), aa, ar);
        lemma_hits_len(security_patterns(), aa, ar);
        lemma_hits_len(performance_patterns(), aa, ar);
        let h1 = hit_bumps(keyword_hits(bugfix_patterns(), aa, ar), ChangeIntent::BugFix, 3);
        let c1 = opt_bump(condition_modified(added, removed), (ChangeIntent::BugFix, 5i64));
        let h2 = hit_bumps(keyword_hits(error_patterns(), aa, ar), ChangeIntent::ErrorHandling, 3);
        let h3 = hit_bumps(keyword_hits(security_patterns(), aa, ar), ChangeIntent::Security, 4);
        let h4 = hit_bumps(keyword_hits(performance_patterns(), aa, ar), ChangeIntent::Performance, 3);
        let l1 = opt_bump(only_literals_changed(added, removed), (ChangeIntent::BugFix, 4i64));
        lemma_hit_bumps_small(keyword_hits(bugfix_patterns(), aa, ar), ChangeIntent::BugFix, 3);
        lemma_hit_bumps_small(keyword_hits(error_patterns(), aa, ar), ChangeIntent::ErrorHandling, 3);
        lemma_hit_bumps_small(keyword_hits(security_patterns(), aa, ar), ChangeIntent::Security, 4);
        lemma_hit_bumps_small(keyword_hits(performance_patterns(), aa, ar), ChangeIntent::Performance, 3);
        let v = volume_bumps(added.len(), removed.len(), equal);
        assert(small_bumps(v));
        assert(small_bumps(c1));
        assert(small_bumps(l1));
        lemma_concat_small(h1, c1);
        lemma_concat_small(h1 + c1, h2);
        lemma_concat_small(h1 + c1 + h2, h3);
        lemma_concat_small(h1 + c1 + h2 + h3, h4);
        lemma_concat_small(h1 + c1 + h2 + h3 + h4, l1);
        assert(content_bumps(added, removed) == h1 + c1 + h2 + h3 + h4 + l1);
        lemma_concat_small(v, content_bumps(added, removed));
    }
}

proof fn lemma_two_small(x: Bump, y: Bump)
    requires
        -10 <= x.1 <= 10,
        -10 <= y.1 <= 10,
    ensures
        small_bumps(seq![x, y]),
{
    let s = seq![x, y];
    assert forall|i: int| 0 <= i < 2 implies -10 <= (#[trigger] s[i]).1 <= 10 by {
        if i == 0 {
            assert(s[0] == x);
        } else {
            assert(s[1] == y);
        }
    }
}

proof fn lemma_structural_small(k: ChangeKindView)
    ensures
        structural_bumps(k).len() <= 4,
        small_bumps(structural_bumps(k)),
{
    match k {
        ChangeKindView::SignatureChanged { details } => {
            let a = seq![(ChangeIntent::ApiChange, 6i64)];
            let b = opt_bump(details.params_added.len() > 0, (ChangeIntent::Feature, 4i64));
            let c = opt_bump(details.params_removed.len() > 0, (ChangeIntent::ApiChange, 4i64));
            let d = opt_bump(details.return_type_changed, (ChangeIntent::ApiChange, 4i64));
            assert(small_bumps(a));
            assert(small_bumps(b));
            assert(small_bumps(c));
            assert(small_bumps(d));
            lemma_concat_small(a, b);
            lemma_concat_small(a + b, c);
            lemma_concat_small(a + b + c, d);
        },
        ChangeKindView::Deleted => {
            lemma_two_small((ChangeIntent::Cleanup, 4i64), (ChangeIntent::Refactoring, 2i64));
        },
        ChangeKindView::MovedAndModified { .. } => {
            lemma_two_small((ChangeIntent::Refactoring, 6i64), (ChangeIntent::Feature, 2i64));
        },
        ChangeKindView::Inlined { .. } => {
            lemma_two_small((ChangeIntent::Refactoring, 8i64), (ChangeIntent::Cleanup, 2i64));
        },
        ChangeKindView::BodyChanged => {
            lemma_two_small((ChangeIntent::BugFix, 2i64), (ChangeIntent::Feature, 2i64));
        },
        _ => {
            let b = structural_bumps(k);
            assert(b.len() == 1);
            assert(-10 <= b[0].1 <= 10);
        },
    }
}

proof fn lemma_context_small(name: Seq<char>, k: ChangeKindView)
    ensures
        context_bumps(name, k).len() <= 10,
        small_bumps(context_bumps(name, k)),
{
    let a = opt_bump(names_test(name), (ChangeIntent::Feature, 2i64));
    let b = opt_bump(names_legacy(name), (ChangeIntent::Cleanup, 4i64));
    let c = opt_bump(names_check(name), (ChangeIntent::Security, 2i64));
    let d = opt_bump(names_speed(name), (ChangeIntent::Performance, 2i64));
    assert(small_bumps(a));
    assert(small_bumps(b));
    assert(small_bumps(c));
    assert(small_bumps(d));
    lemma_concat_small(a, b);
    lemma_concat_small(a + b, c);
    lemma_concat_small(a + b + c, d);
    assert(small_bumps(additive_bumps(k))) by {
        match k {
            ChangeKindView::SignatureChanged { details } => {
                let cond = details.params_added.len() > 0 && details.params_removed.len() == 0;
                lemma_concat_small(
                    opt_bump(cond, (ChangeIntent::Feature, 4i64)),
                    opt_bump(cond, (ChangeIntent::ApiChange, -2i64)),
                );
            },
            _ => {},
        }
    }
    lemma_concat_small(hint_bumps(name), additive_bumps(k));
}

proof fn lemma_change_bumps_small(c: ChangeView)
    ensures
        change_bumps(c).len() <= 100,
        small_bumps(change_bumps(c)),
{
    let st = structural_bumps(c.kind);
    let ctx = context_bumps(lowered_name(c), c.kind);
    let df = match c.body_diff {
        Some(d) => diff_bumps(d),
        None => Seq::<Bump>::empty(),
    };
    match c.body_diff {
        Some(d) => {
            lemma_pattern_small(
                lowered_lines(d, DiffLineTag::Insert),
                lowered_lines(d, DiffLineTag::Delete),
                count_tag(d, DiffLineTag::Equal),
            );
        },
        None => {},
    }
    lemma_structural_small(c.kind);
    lemma_context_small(lowered_name(c), c.kind);
    lemma_concat_small(st, df);
    lemma_concat_small(st + df, ctx);
    assert(change_bumps(c) == st + df + ctx);
}

/// Classifies the intent of a semantic change: structural signals from its
/// kind, line patterns of its body diff, and hints in its name are scored
/// per intent, and the best-scored intent is primary.
pub fn classify_intent(change: &SemanticChange) -> (r: IntentClassification)
    ensures
        r@ == classify_intent_spec(change@),
        unit_share(r.confidence),
        forall|k: int| 0 <= k < r@.secondary.len() ==> unit_share((#[trigger] r@.secondary[k]).1),
{
    let mut bumps: Vec<Bump> = Vec::new();
    let mut signals: Vec<String> = Vec::new();
    score_structural(&change.kind, &mut bumps, &mut signals);
    match &change.body_diff {
        Some(d) => score_diff_patterns(d, &mut bumps, &mut signals),
        None => {},
    }
    score_symbol_context(change, &mut bumps, &mut signals);
    proof {
        assert(bumps@ =~= change_bumps(change@));
        assert(strings_view(signals@) =~= change_signals(change@));
        lemma_change_bumps_small(change@);
        lemma_intent_shares_unit(bumps@, strings_view(signals@));
    }
    resolve_intent(&bumps, signals)
}

/// Classifies the intent of every change, in order.
pub fn classify_all(changes: &[SemanticChange]) -> (r: Vec<IntentClassification>)
    ensures
        r@.len() == changes@.len(),
        forall|i: int| 0 <= i < changes@.len() ==> (#[trigger] r@[i])@ == classify_intent_spec(
            changes@[i]@,
        ),
{
    let mut out: Vec<IntentClassification> = Vec::new();
    let mut i: usize = 0;
    while i < changes.len()
        invariant
            i <= changes.len(),
            out@.len() == i,
            forall|k: int| 0 <= k < i ==> (#[trigger] out@[k])@ == classify_intent_spec(changes@[k]@),
        decreases changes.len() - i,
    {
        out.push(classify_intent(&changes[i]));
        i = i + 1;
    }
    out
}

} // verus!
