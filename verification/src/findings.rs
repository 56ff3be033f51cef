//! Policy-aware findings with explicit decision slots.
//!
//! [`analyze_scan_item`] turns one scanned item into a [`Finding`] when the
//! item is not canonical under a [`Policy`]. A finding counts why the item
//! is non-canonical ([`NonCanonicality`]), lists one [`DecisionSlot`] per
//! bare base that policy leaves to the caller, and renders a replacement for
//! any decision vector.
//!
//! The rules, per emoji component, in order of precedence:
//!
//! - before an emoji modifier the base is bare; every selector after it is
//!   cleanup
//! - before a tag modifier the base takes emoji presentation when it has a
//!   variation sequence and is not emoji-default, else it is bare; a run
//!   that does not start with that presentation is a defect
//! - otherwise a base without variation sequences loses its selectors, and
//!   a base with them is resolved by policy (in the keycap domain before an
//!   enclosing keycap)
//!
//! Selectors after emoji modifiers and tag runs are counted as cleanup in
//! the first two cases. Selectors after flag letters and ZWJ links are
//! always cleanup. The behaviour is stated over a model: [`item_findings`].

use std::ops::Range;

use vstd::prelude::*;

use crate::analysis::{
    add_counts, analyze_link, append_links, choice_count, concat_analysis, counts,
    default_decisions, empty_analysis, empty_replacement, first_modification, fixed_analysis,
    is_zero, kind_fits, lemma_concat_assoc, lemma_concat_empty, lemma_default_decisions_len,
    lemma_default_replacement_is_default_decisions, lemma_empty_strips_to, lemma_fixed_accounted,
    lemma_fixed_strips_to, lemma_joined_prefix, lemma_link_strips_to, lemma_links_strips_to,
    lemma_modifications_counts, lemma_render_default_concat, lemma_strip_singleton,
    lemma_strips_to_concat, link_analysis, links_analysis, modifications_selector_count,
    modifications_selector_total, policy_decision, policy_outcome, presentation_run, render_default,
    render_flag, render_flag_text, render_singleton, render_singleton_text, render_with, strips_to,
    total, unsanctioned, zero_counts, AnalysisModel, BaseDecision, BaseOutcome, Counts,
    ElementModel, ReplacementAnalysis,
};
use crate::policy::Policy;
use crate::presentation::{
    lemma_strip_selector_chars, selector_chars, strip_selectors, Presentation,
};
use crate::scanner::{
    emoji_text, item_wf, joined_text, link_text, links_text, modifications_text, sequence_text,
    EmojiLike, EmojiModel, EmojiModification, EmojiSequence, EmojiStem, ItemModel, JoinedModel,
    KindModel, ModificationModel, ScanItem, ScanKind, SequenceModel, StemModel, ZwjJoinedEmoji,
};
use crate::unicode::{self, emoji_default, has_vs};

verus! {

// --- Model ---

/// The counts of a fixed cleanup that gives the base presentation
/// `canonical`, where `trailing` selectors follow its modifications: a run
/// equal to `canonical` is kept, a longer run starting with it loses its
/// extra selectors, and any other run is one defect.
pub open spec fn cleanup_counts(
    sels: Seq<Presentation>,
    canonical: Option<Presentation>,
    trailing: nat,
) -> Counts {
    let c = presentation_run(canonical);
    if sels == c {
        unsanctioned(trailing)
    } else if sels.len() >= c.len() && sels.take(c.len() as int) == c {
        unsanctioned(trailing + (sels.len() - c.len()) as nat)
    } else {
        counts(trailing, 1, 0, 0, 0)
    }
}

/// The presentation a tag context gives `base`: emoji for a base with a
/// variation sequence that is not emoji-default, bare otherwise.
pub open spec fn tag_presentation(base: char) -> Option<Presentation> {
    if emoji_default(base) || !has_vs(base) {
        None
    } else {
        Some(Presentation::Emoji)
    }
}

/// The finding analysis of a singleton base with selector run `sels` and
/// modifications `ms`.
pub open spec fn singleton_findings(
    base: char,
    sels: Seq<Presentation>,
    ms: Seq<ModificationModel>,
    policy: Policy,
) -> AnalysisModel {
    let trailing = modifications_selector_count(ms);
    match first_modification(ms) {
        Some(ModificationModel::EmojiModifier { .. }) => fixed_analysis(
            cleanup_counts(sels, None, trailing),
            render_singleton(base, None, ms),
        ),
        Some(ModificationModel::TagModifier { .. }) => fixed_analysis(
            cleanup_counts(sels, tag_presentation(base), trailing),
            render_singleton(base, tag_presentation(base), ms),
        ),
        first => if !has_vs(base) {
            fixed_analysis(unsanctioned(sels.len()), render_singleton(base, None, ms))
        } else {
            match policy_outcome(
                base,
                sels,
                first matches Some(ModificationModel::EnclosingKeycap { .. }),
                policy,
            ) {
                BaseOutcome::Deterministic { canonical, counts } => fixed_analysis(
                    counts,
                    render_singleton(base, canonical, ms),
                ),
                BaseOutcome::NeedsDecision { default, counts } => AnalysisModel {
                    counts,
                    elements: seq![
                        ElementModel::Choice {
                            default,
                            text: render_singleton(base, Some(Presentation::Text), ms),
                            emoji: render_singleton(base, Some(Presentation::Emoji), ms),
                        },
                    ],
                },
            }
        },
    }
}

/// The finding analysis of one emoji-like component.
pub open spec fn component_findings(e: EmojiModel, policy: Policy) -> AnalysisModel {
    match e.stem {
        StemModel::SingletonBase { base, selectors } => singleton_findings(
            base,
            selectors,
            e.modifiers,
            policy,
        ),
        StemModel::Flag { first_ri, first_selectors, second_ri, second_selectors } =>
            fixed_analysis(
            unsanctioned(
                first_selectors.len() + second_selectors.len() + modifications_selector_count(
                    e.modifiers,
                ),
            ),
            render_flag(first_ri, second_ri, e.modifiers),
        ),
    }
}

pub open spec fn joined_findings(joined: Seq<JoinedModel>, policy: Policy) -> AnalysisModel
    decreases joined.len(),
{
    if joined.len() == 0 {
        empty_analysis()
    } else {
        concat_analysis(
            concat_analysis(
                joined_findings(joined.drop_last(), policy),
                link_analysis(joined.last().link),
            ),
            component_findings(joined.last().emoji, policy),
        )
    }
}

/// The finding analysis of an emoji sequence: its parts in source order,
/// each component by itself.
pub open spec fn sequence_findings(sq: SequenceModel, policy: Policy) -> AnalysisModel {
    match sq {
        SequenceModel::LinksOnly { links } => links_analysis(links),
        SequenceModel::EmojiHeaded { first, joined, trailing } => concat_analysis(
            concat_analysis(component_findings(first, policy), joined_findings(joined, policy)),
            links_analysis(trailing),
        ),
    }
}

/// The finding analysis of a scanned item's kind, when the item is
/// non-canonical: passthrough never; a selector run removed whole; an emoji
/// sequence when its analysis counts anything.
pub open spec fn item_findings(kind: KindModel, policy: Policy) -> Option<AnalysisModel> {
    match kind {
        KindModel::Passthrough => None,
        KindModel::Selectors { selectors } => Some(
            fixed_analysis(unsanctioned(selectors.len()), Seq::empty()),
        ),
        KindModel::Sequence { sequence } => {
            let a = sequence_findings(sequence, policy);
            if is_zero(a.counts) {
                None
            } else {
                Some(a)
            }
        },
    }
}

// --- Non-canonicality summaries ---

/// Count summary for why a scanned item is non-canonical.
///
/// These axes are compositional rather than mutually exclusive: a finding
/// may at once include selector cleanup, sequence defects, redundant
/// selectors and bare bases left to the caller.
#[derive(Debug, Clone, Copy, PartialEq, Eq, Hash)]
#[non_exhaustive]
pub struct NonCanonicality {
    /// Count of presentation selectors removed as unsanctioned cleanup.
    pub unsanctioned_selectors: usize,
    /// Count of deterministic sequence defects that need repair but expose no
    /// policy choice.
    pub defective_sequences: usize,
    /// Count of sanctioned selectors dropped because the policy prefers bare
    /// form.
    pub redundant_selectors: usize,
    /// Count of bare base slots that the policy asks callers to resolve.
    pub bases_to_resolve: usize,
}

impl View for NonCanonicality {
    type V = Counts;

    open spec fn view(&self) -> Counts {
        counts(
            self.unsanctioned_selectors as nat,
            self.defective_sequences as nat,
            self.redundant_selectors as nat,
            0,
            self.bases_to_resolve as nat,
        )
    }
}

impl NonCanonicality {
    /// Create an explicit non-canonicality summary.
    pub fn new(
        unsanctioned_selectors: usize,
        defective_sequences: usize,
        redundant_selectors: usize,
        bases_to_resolve: usize,
    ) -> (r: Self)
        ensures
            r.unsanctioned_selectors == unsanctioned_selectors,
            r.defective_sequences == defective_sequences,
            r.redundant_selectors == redundant_selectors,
            r.bases_to_resolve == bases_to_resolve,
    {
        NonCanonicality {
            unsanctioned_selectors,
            defective_sequences,
            redundant_selectors,
            bases_to_resolve,
        }
    }
}

impl Default for NonCanonicality {
    fn default() -> (r: Self)
        ensures
            r@ == zero_counts(),
    {
        NonCanonicality::new(0, 0, 0, 0)
    }
}

impl vstd::std_specs::ops::AddSpecImpl for NonCanonicality {
    open spec fn obeys_add_spec() -> bool {
        true
    }

    open spec fn add_req(self, rhs: NonCanonicality) -> bool {
        &&& self.unsanctioned_selectors + rhs.unsanctioned_selectors <= usize::MAX
        &&& self.defective_sequences + rhs.defective_sequences <= usize::MAX
        &&& self.redundant_selectors + rhs.redundant_selectors <= usize::MAX
        &&& self.bases_to_resolve + rhs.bases_to_resolve <= usize::MAX
    }

    open spec fn add_spec(self, rhs: NonCanonicality) -> NonCanonicality {
        field_sums(self, rhs)
    }
}

/// The field-wise sum of two summaries.
pub closed spec fn field_sums(a: NonCanonicality, b: NonCanonicality) -> NonCanonicality {
    NonCanonicality {
        unsanctioned_selectors: (a.unsanctioned_selectors + b.unsanctioned_selectors) as usize,
        defective_sequences: (a.defective_sequences + b.defective_sequences) as usize,
        redundant_selectors: (a.redundant_selectors + b.redundant_selectors) as usize,
        bases_to_resolve: (a.bases_to_resolve + b.bases_to_resolve) as usize,
    }
}

impl core::ops::Add for NonCanonicality {
    type Output = NonCanonicality;

    fn add(self, rhs: NonCanonicality) -> (r: NonCanonicality)
        ensures
            r@ == add_counts(self@, rhs@),
    {
        NonCanonicality::new(
            self.unsanctioned_selectors + rhs.unsanctioned_selectors,
            self.defective_sequences + rhs.defective_sequences,
            self.redundant_selectors + rhs.redundant_selectors,
            self.bases_to_resolve + rhs.bases_to_resolve,
        )
    }
}

// --- Decisions ---

/// One presentation choice in a replacement decision vector.
///
/// A complete decision vector holds one choice per [`DecisionSlot`] of a
/// finding; a fixed repair has no slots and takes the empty vector.
#[derive(Debug, Clone, Copy, PartialEq, Eq, Hash, Structural)]
#[non_exhaustive]
pub enum ReplacementDecision {
    /// Resolve the slot as text presentation.
    Text,
    /// Resolve the slot as emoji presentation.
    Emoji,
}

/// The decision that picks presentation `p`.
pub open spec fn decision_of(p: Presentation) -> ReplacementDecision {
    match p {
        Presentation::Text => ReplacementDecision::Text,
        Presentation::Emoji => ReplacementDecision::Emoji,
    }
}

/// The presentation decision `d` picks.
pub open spec fn presentation_for(d: ReplacementDecision) -> Presentation {
    match d {
        ReplacementDecision::Text => Presentation::Text,
        ReplacementDecision::Emoji => Presentation::Emoji,
    }
}

pub open spec fn decisions_of(ps: Seq<Presentation>) -> Seq<ReplacementDecision> {
    ps.map_values(|p: Presentation| decision_of(p))
}

pub open spec fn presentations_for(ds: Seq<ReplacementDecision>) -> Seq<Presentation> {
    ds.map_values(|d: ReplacementDecision| presentation_for(d))
}

fn to_decision(p: Presentation) -> (r: ReplacementDecision)
    ensures
        r == decision_of(p),
{
    match p {
        Presentation::Text => ReplacementDecision::Text,
        Presentation::Emoji => ReplacementDecision::Emoji,
    }
}

/// One presentation slot in a finding's decision vector: its valid choices
/// and the one formatting applies by default.
#[derive(Debug, PartialEq, Eq)]
pub struct DecisionSlot {
    choices: Vec<ReplacementDecision>,
    default: ReplacementDecision,
}

impl DecisionSlot {
    /// The valid choices, in order.
    pub closed spec fn choice_list(self) -> Seq<ReplacementDecision> {
        self.choices@
    }

    /// The choice formatting applies by default.
    pub closed spec fn default_choice(self) -> ReplacementDecision {
        self.default
    }

    /// Valid choices for this slot.
    pub fn choices(&self) -> (r: &[ReplacementDecision])
        ensures
            r@ == self.choice_list(),
    {
        self.choices.as_slice()
    }

    /// The choice batch formatting applies to this slot.
    pub fn default_decision(&self) -> (r: ReplacementDecision)
        ensures
            r == self.default_choice(),
    {
        self.default
    }

    /// A slot offering text and emoji, defaulting to `default`.
    fn text_or_emoji(default: ReplacementDecision) -> (r: Self)
        ensures
            r.choice_list() == seq![ReplacementDecision::Text, ReplacementDecision::Emoji],
            r.default_choice() == default,
    {
        let choices = vec![ReplacementDecision::Text, ReplacementDecision::Emoji];
        DecisionSlot { choices, default }
    }
}

impl Clone for DecisionSlot {
    fn clone(&self) -> (r: Self)
        ensures
            r.choice_list() == self.choice_list(),
            r.default_choice() == self.default_choice(),
    {
        let mut choices: Vec<ReplacementDecision> = Vec::new();
        let mut k: usize = 0;
        while k < self.choices.len()
            invariant
                k <= self.choices@.len(),
                choices@ == self.choices@.take(k as int),
            decreases self.choices@.len() - k,
        {
            choices.push(self.choices[k]);
            k = k + 1;
            proof {
                assert(choices@ =~= self.choices@.take(k as int));
            }
        }
        proof {
            assert(self.choices@.take(k as int) =~= self.choices@);
        }
        DecisionSlot { choices, default: self.default }
    }
}

/// Whether `slots` are the decision slots of the pieces `elems`: one per
/// choice, in order, each offering text and emoji with the piece's default.
pub open spec fn slots_for(slots: Seq<DecisionSlot>, elems: Seq<ElementModel>) -> bool {
    &&& slots.len() == choice_count(elems)
    &&& forall|k: int|
        0 <= k < slots.len() ==> (#[trigger] slots[k]).choice_list() == seq![
            ReplacementDecision::Text,
            ReplacementDecision::Emoji,
        ] && slots[k].default_choice() == decision_of(default_decisions(elems)[k])
}

// --- Findings ---

/// A single non-canonical scanned item with its decision slots and
/// replacements.
#[derive(Debug, PartialEq, Eq)]
pub struct Finding<'a> {
    /// Byte range in the original input.
    pub span: Range<usize>,
    /// Original raw source slice for the item.
    pub raw: &'a str,
    analysis: ReplacementAnalysis,
    slots: Vec<DecisionSlot>,
    default_text: String,
}

impl<'a> Clone for Finding<'a> {
    fn clone(&self) -> (r: Self)
        ensures
            r.model() == self.model(),
            r.raw_text() == self.raw_text(),
            r.byte_span() == self.byte_span(),
            r.wf() == self.wf(),
    {
        let mut slots: Vec<DecisionSlot> = Vec::new();
        let mut k: usize = 0;
        while k < self.slots.len()
            invariant
                k <= self.slots@.len(),
                slots@.len() == k,
                forall|j: int|
                    0 <= j < k ==> (#[trigger] slots@[j]).choice_list()
                        == self.slots@[j].choice_list() && slots@[j].default_choice()
                        == self.slots@[j].default_choice(),
            decreases self.slots@.len() - k,
        {
            slots.push(self.slots[k].clone());
            k = k + 1;
        }
        let r = Finding {
            span: self.span.start..self.span.end,
            raw: self.raw,
            analysis: self.analysis.clone(),
            slots,
            default_text: self.default_text.clone(),
        };
        proof {
            let elems = self.analysis@.elements;
            assert(slots_for(r.slots@, elems) == slots_for(self.slots@, elems)) by {
                if slots_for(self.slots@, elems) {
                    assert forall|j: int| 0 <= j < r.slots@.len() implies (#[trigger] r.slots@[j]).choice_list()
                        == seq![ReplacementDecision::Text, ReplacementDecision::Emoji]
                        && r.slots@[j].default_choice() == decision_of(default_decisions(elems)[j]) by {
                        assert(self.slots@[j].choice_list() == seq![ReplacementDecision::Text, ReplacementDecision::Emoji]);
                    }
                }
                if slots_for(r.slots@, elems) {
                    assert forall|j: int| 0 <= j < self.slots@.len() implies (#[trigger] self.slots@[j]).choice_list()
                        == seq![ReplacementDecision::Text, ReplacementDecision::Emoji]
                        && self.slots@[j].default_choice() == decision_of(default_decisions(elems)[j]) by {
                        assert(r.slots@[j].choice_list() == seq![ReplacementDecision::Text, ReplacementDecision::Emoji]);
                    }
                }
            }
        }
        r
    }
}

impl<'a> Finding<'a> {
    /// The counts and replacement pieces of this finding.
    pub closed spec fn model(self) -> AnalysisModel {
        self.analysis@
    }

    /// The raw source slice of the analysed item.
    pub closed spec fn raw_text(self) -> &'a str {
        self.raw
    }

    /// The byte range of the analysed item.
    pub closed spec fn byte_span(self) -> Range<usize> {
        self.span
    }

    /// Whether the slots and the default replacement agree with the model.
    pub closed spec fn wf(self) -> bool {
        &&& self.analysis@.counts.missing == 0
        &&& slots_for(self.slots@, self.analysis@.elements)
        &&& self.default_text@ == render_default(self.analysis@.elements)
    }

    /// Why the analysed item is non-canonical.
    pub fn non_canonicality(&self) -> (r: NonCanonicality)
        requires
            self.wf(),
        ensures
            r@ == self.model().counts,
    {
        let c = self.analysis.counts();
        NonCanonicality::new(
            c.unsanctioned_selectors,
            c.defective_sequences,
            c.redundant_selectors,
            c.bases_to_resolve,
        )
    }

    /// The presentation slots of this finding's decision vector, in order.
    /// A fixed repair has none.
    pub fn decision_slots(&self) -> (r: &[DecisionSlot])
        requires
            self.wf(),
        ensures
            slots_for(r@, self.model().elements),
    {
        self.slots.as_slice()
    }

    /// The decision vector batch formatting applies.
    pub fn default_decisions(&self) -> (r: Vec<ReplacementDecision>)
        ensures
            r@ == decisions_of(default_decisions(self.model().elements)),
    {
        let ps = self.analysis.default_decision_vec();
        let mut out: Vec<ReplacementDecision> = Vec::new();
        let mut k: usize = 0;
        while k < ps.len()
            invariant
                k <= ps.len(),
                ps@ == default_decisions(self.model().elements),
                out@ == decisions_of(ps@.take(k as int)),
            decreases ps.len() - k,
        {
            out.push(to_decision(ps[k]));
            k = k + 1;
            proof {
                assert(out@ =~= decisions_of(ps@.take(k as int)));
            }
        }
        proof {
            assert(ps@.take(k as int) =~= ps@);
        }
        out
    }

    /// The replacement for the decision vector batch formatting applies.
    pub fn default_replacement(&self) -> (r: &str)
        requires
            self.wf(),
        ensures
            r@ == render_default(self.model().elements),
    {
        self.default_text.as_str()
    }

    /// The replacement for a decision vector with one choice per slot, in
    /// order; `None` when the vector has the wrong length.
    pub fn replacement(&self, decision: &[ReplacementDecision]) -> (r: Option<String>)
        ensures
            decision@.len() == choice_count(self.model().elements) ==> (r matches Some(text)
                && text@ == render_with(self.model().elements, presentations_for(decision@))),
            decision@.len() != choice_count(self.model().elements) ==> r is None,
    {
        let mut ps: Vec<Presentation> = Vec::new();
        let mut k: usize = 0;
        while k < decision.len()
            invariant
                k <= decision.len(),
                ps@ == presentations_for(decision@.take(k as int)),
            decreases decision.len() - k,
        {
            let p = match decision[k] {
                ReplacementDecision::Text => Presentation::Text,
                ReplacementDecision::Emoji => Presentation::Emoji,
            };
            ps.push(p);
            k = k + 1;
            proof {
                assert(ps@ =~= presentations_for(decision@.take(k as int)));
            }
        }
        proof {
            assert(decision@.take(k as int) =~= decision@);
        }
        self.analysis.text_with(ps.as_slice())
    }
}

/// The finding for `item` with analysis `analysis`.
fn finish<'a>(item: &ScanItem<'a>, analysis: ReplacementAnalysis) -> (f: Finding<'a>)
    requires
        analysis@.counts.missing == 0,
    ensures
        f.wf(),
        f.model() == analysis@,
        f.raw_text() == item.raw,
        f.byte_span() == item.span,
{
    let defaults = analysis.default_decision_vec();
    let ghost elems = analysis@.elements;
    proof {
        lemma_default_decisions_len(elems);
    }
    let mut slots: Vec<DecisionSlot> = Vec::new();
    let mut k: usize = 0;
    while k < defaults.len()
        invariant
            k <= defaults.len(),
            defaults@ == default_decisions(elems),
            slots.len() == k,
            forall|q: int|
                0 <= q < k ==> (#[trigger] slots@[q]).choice_list() == seq![
                    ReplacementDecision::Text,
                    ReplacementDecision::Emoji,
                ] && slots@[q].default_choice() == decision_of(default_decisions(elems)[q]),
        decreases defaults.len() - k,
    {
        slots.push(DecisionSlot::text_or_emoji(to_decision(defaults[k])));
        k = k + 1;
    }
    let default_text = analysis.default_text();
    Finding { span: item.span.start..item.span.end, raw: item.raw, analysis, slots, default_text }
}

// --- Analysing components ---

/// The counts of [`cleanup_counts`].
fn cleanup(sels: &Vec<Presentation>, canonical: Option<Presentation>, trailing: usize) -> (r:
    crate::analysis::NonCanonicality)
    requires
        trailing + sels.len() + 1 <= usize::MAX,
    ensures
        r@ == cleanup_counts(sels@, canonical, trailing as nat),
{
    let n = sels.len();
    match canonical {
        None => {
            proof {
                assert(sels@.take(0) =~= Seq::<Presentation>::empty());
                if n == 0 {
                    assert(sels@ =~= Seq::<Presentation>::empty());
                }
            }
            crate::analysis::NonCanonicality::unsanctioned(trailing + n)
        },
        Some(p) => {
            let ghost c = seq![p];
            if n == 1 && sels[0] == p {
                proof {
                    assert(sels@ =~= c);
                }
                crate::analysis::NonCanonicality::unsanctioned(trailing)
            } else if n >= 1 && sels[0] == p {
                proof {
                    assert(sels@.take(1) =~= c);
                    assert(sels@ != c);
                }
                crate::analysis::NonCanonicality::unsanctioned(trailing + (n - 1))
            } else {
                proof {
                    if n >= 1 {
                        assert(sels@.take(1)[0] != c[0]);
                    }
                    assert(sels@ != c);
                }
                crate::analysis::NonCanonicality::new(trailing, 1, 0, 0, 0)
            }
        },
    }
}

proof fn lemma_singleton_findings_total(
    base: char,
    sels: Seq<Presentation>,
    ms: Seq<ModificationModel>,
    policy: Policy,
)
    ensures
        total(singleton_findings(base, sels, ms, policy).counts) <= 1 + sels.len()
            + modifications_selector_count(ms),
        singleton_findings(base, sels, ms, policy).counts.missing == 0,
{
}

proof fn lemma_component_findings_total(e: EmojiModel, policy: Policy)
    ensures
        total(component_findings(e, policy).counts) <= emoji_text(e).len(),
        component_findings(e, policy).counts.missing == 0,
{
    lemma_modifications_counts(e.modifiers);
    match e.stem {
        StemModel::SingletonBase { base, selectors } => {
            lemma_singleton_findings_total(base, selectors, e.modifiers, policy);
        },
        _ => {},
    }
}

/// The finding analysis of a singleton base, as [`singleton_findings`]
/// states.
fn analyze_singleton(
    base: char,
    sels: &Vec<Presentation>,
    ms: &Vec<EmojiModification>,
    policy: &Policy,
) -> (r: ReplacementAnalysis)
    requires
        1 + sels@.len() + modifications_text(crate::scanner::modifications_view(ms@)).len()
            <= usize::MAX,
    ensures
        r@ == singleton_findings(base, sels@, crate::scanner::modifications_view(ms@), *policy),
{
    let ghost mv = crate::scanner::modifications_view(ms@);
    proof {
        lemma_modifications_counts(mv);
        if ms.len() > 0 {
            assert(mv[0] == ms@[0]@);
        }
    }
    let first = if ms.len() > 0 {
        Some(&ms[0])
    } else {
        None
    };
    match first {
        Some(EmojiModification::EmojiModifier { .. }) => {
            let trailing = modifications_selector_total(ms);
            let c = cleanup(sels, None, trailing);
            let text = render_singleton_text(base, None, ms);
            ReplacementAnalysis::fixed(c, text)
        },
        Some(EmojiModification::TagModifier(_)) => {
            let canonical = if unicode::is_emoji_default(base) || !unicode::has_variation_sequence(
                base,
            ) {
                None
            } else {
                Some(Presentation::Emoji)
            };
            let trailing = modifications_selector_total(ms);
            let c = cleanup(sels, canonical, trailing);
            let text = render_singleton_text(base, canonical, ms);
            ReplacementAnalysis::fixed(c, text)
        },
        _ => {
            if !unicode::has_variation_sequence(base) {
                let text = render_singleton_text(base, None, ms);
                return ReplacementAnalysis::fixed(
                    crate::analysis::NonCanonicality::unsanctioned(sels.len()),
                    text,
                );
            }
            let is_keycap = match first {
                Some(EmojiModification::EnclosingKeycap { .. }) => true,
                _ => false,
            };
            match policy_decision(base, sels, is_keycap, policy) {
                BaseDecision::Deterministic(canonical, c) => {
                    let text = render_singleton_text(base, canonical, ms);
                    ReplacementAnalysis::fixed(c, text)
                },
                BaseDecision::NeedsDecision(default, c) => {
                    let text = render_singleton_text(base, Some(Presentation::Text), ms);
                    let emoji = render_singleton_text(base, Some(Presentation::Emoji), ms);
                    ReplacementAnalysis::choice(c, default, text, emoji)
                },
            }
        },
    }
}

/// The finding analysis of one component, as [`component_findings`]
/// states.
fn analyze_component(e: &EmojiLike, policy: &Policy) -> (r: ReplacementAnalysis)
    requires
        emoji_text(e@).len() <= usize::MAX,
    ensures
        r@ == component_findings(e@, *policy),
{
    let ghost mv = crate::scanner::modifications_view(e.modifiers@);
    proof {
        lemma_modifications_counts(mv);
    }
    match &e.stem {
        EmojiStem::SingletonBase { base, presentation_selectors_after_base } => {
            analyze_singleton(*base, presentation_selectors_after_base, &e.modifiers, policy)
        },
        EmojiStem::Flag {
            first_ri,
            presentation_selectors_after_first_ri,
            second_ri,
            presentation_selectors_after_second_ri,
        } => {
            let n = presentation_selectors_after_first_ri.len()
                + presentation_selectors_after_second_ri.len() + modifications_selector_total(
                &e.modifiers,
            );
            let text = render_flag_text(*first_ri, *second_ri, &e.modifiers);
            ReplacementAnalysis::fixed(crate::analysis::NonCanonicality::unsanctioned(n), text)
        },
    }
}

// --- Analysing sequences ---

proof fn lemma_joined_findings_total(joined: Seq<JoinedModel>, policy: Policy)
    ensures
        total(joined_findings(joined, policy).counts) <= joined_text(joined).len(),
        joined_findings(joined, policy).counts.missing == 0,
    decreases joined.len(),
{
    if joined.len() > 0 {
        lemma_joined_findings_total(joined.drop_last(), policy);
        lemma_component_findings_total(joined.last().emoji, policy);
    }
}

proof fn lemma_links_missing(links: Seq<Seq<Presentation>>)
    ensures
        links_analysis(links).counts.missing == 0,
    decreases links.len(),
{
    if links.len() > 0 {
        lemma_links_missing(links.drop_last());
    }
}

/// Appends the finding analyses of `joined` (each link, then its
/// component), in order, to `acc`.
fn append_joined(acc: &mut ReplacementAnalysis, joined: &Vec<ZwjJoinedEmoji>, policy: &Policy)
    requires
        total(old(acc)@.counts) + joined_text(crate::scanner::joined_view(joined@)).len()
            <= usize::MAX,
    ensures
        final(acc)@ == concat_analysis(
            old(acc)@,
            joined_findings(crate::scanner::joined_view(joined@), *policy),
        ),
{
    let ghost jv = crate::scanner::joined_view(joined@);
    let ghost start = acc@;
    let mut k: usize = 0;
    proof {
        assert(jv.take(0) =~= Seq::<JoinedModel>::empty());
        lemma_concat_empty(start);
    }
    while k < joined.len()
        invariant
            jv == crate::scanner::joined_view(joined@),
            k <= joined.len(),
            total(start.counts) + joined_text(jv).len() <= usize::MAX,
            acc@ == concat_analysis(start, joined_findings(jv.take(k as int), *policy)),
        decreases joined.len() - k,
    {
        let ghost longer = jv.take(k as int + 1);
        let ghost shorter = jv.take(k as int);
        proof {
            assert(longer.drop_last() =~= shorter);
            assert(longer.last() == jv[k as int]);
            lemma_joined_findings_total(longer, *policy);
            lemma_joined_findings_total(shorter, *policy);
            lemma_joined_prefix(jv, k as int + 1);
            lemma_component_findings_total(jv[k as int].emoji, *policy);
        }
        let link = analyze_link(&joined[k].link);
        proof {
            lemma_concat_assoc(start, joined_findings(shorter, *policy), link@);
        }
        acc.append(link);
        let component = analyze_component(&joined[k].emoji, policy);
        proof {
            lemma_concat_assoc(
                start,
                concat_analysis(joined_findings(shorter, *policy), link@),
                component@,
            );
        }
        acc.append(component);
        k = k + 1;
    }
    proof {
        assert(jv.take(k as int) =~= jv);
    }
}

/// The finding analysis of a sequence, as [`sequence_findings`] states.
fn analyze_sequence(sequence: &EmojiSequence, policy: &Policy) -> (r: ReplacementAnalysis)
    requires
        sequence_text(sequence@).len() <= usize::MAX,
    ensures
        r@ == sequence_findings(sequence@, *policy),
{
    match sequence {
        EmojiSequence::LinksOnly(links) => {
            let mut acc = empty_replacement();
            append_links(&mut acc, links);
            proof {
                lemma_concat_empty(links_analysis(crate::scanner::links_view(links@)));
            }
            acc
        },
        EmojiSequence::EmojiHeaded { first, joined, trailing_links } => {
            proof {
                lemma_component_findings_total(first@, *policy);
                lemma_joined_findings_total(crate::scanner::joined_view(joined@), *policy);
            }
            let mut acc = analyze_component(first, policy);
            append_joined(&mut acc, joined, policy);
            append_links(&mut acc, trailing_links);
            acc
        },
    }
}

proof fn lemma_sequence_findings_missing(sq: SequenceModel, policy: Policy)
    ensures
        sequence_findings(sq, policy).counts.missing == 0,
{
    match sq {
        SequenceModel::LinksOnly { links } => lemma_links_missing(links),
        SequenceModel::EmojiHeaded { first, joined, trailing } => {
            lemma_component_findings_total(first, policy);
            lemma_joined_findings_total(joined, policy);
            lemma_links_missing(trailing);
        },
    }
}

/// Analyse a scanned item under `policy`: `None` when the item is already
/// canonical, otherwise a finding for the item's raw text and span with the
/// analysis of [`item_findings`].
pub fn analyze_scan_item<'a>(item: &ScanItem<'a>, policy: &Policy) -> (r: Option<Finding<'a>>)
    requires
        kind_fits(item.kind@),
    ensures
        match item_findings(item.kind@, *policy) {
            None => r is None,
            Some(a) => (r matches Some(f) && f.wf() && f.raw_text() == item.raw && f.byte_span()
                == item.span && f.model() == a),
        },
{
    match &item.kind {
        ScanKind::Passthrough => None,
        ScanKind::UnsanctionedPresentationSelectors(selectors) => {
            let analysis = ReplacementAnalysis::fixed(
                crate::analysis::NonCanonicality::unsanctioned(selectors.len()),
                String::new(),
            );
            Some(finish(item, analysis))
        },
        ScanKind::EmojiSequence(sequence) => {
            let analysis = analyze_sequence(sequence, policy);
            proof {
                lemma_sequence_findings_missing(sequence@, *policy);
            }
            if analysis.counts().is_empty() {
                None
            } else {
                Some(finish(item, analysis))
            }
        },
    }
}

// --- Laws ---

proof fn lemma_decisions_round_trip(ps: Seq<Presentation>)
    ensures
        presentations_for(decisions_of(ps)) == ps,
        decisions_of(ps).len() == ps.len(),
{
    assert(presentations_for(decisions_of(ps)) =~= ps);
}

/// The default decision vector of a finding is a valid decision vector,
/// and the replacement it selects is the default replacement.
pub proof fn lemma_default_decisions_select_default_replacement(f: Finding)
    requires
        f.wf(),
    ensures
        decisions_of(default_decisions(f.model().elements)).len() == choice_count(
            f.model().elements,
        ),
        render_with(
            f.model().elements,
            presentations_for(decisions_of(default_decisions(f.model().elements))),
        ) == render_default(f.model().elements),
{
    let elems = f.model().elements;
    lemma_default_replacement_is_default_decisions(elems);
    lemma_decisions_round_trip(default_decisions(elems));
}

proof fn lemma_concat_choices(a: AnalysisModel, b: AnalysisModel)
    requires
        choice_count(a.elements) == a.counts.resolve,
        choice_count(b.elements) == b.counts.resolve,
    ensures
        choice_count(concat_analysis(a, b).elements) == concat_analysis(a, b).counts.resolve,
{
    lemma_render_default_concat(a.elements, b.elements);
}

proof fn lemma_component_findings_choices(e: EmojiModel, policy: Policy)
    ensures
        choice_count(component_findings(e, policy).elements) == component_findings(
            e,
            policy,
        ).counts.resolve,
{
    let a = component_findings(e, policy);
    if a.elements.len() == 1 {
        assert(a.elements.drop_last() =~= Seq::<ElementModel>::empty());
        assert(choice_count(a.elements.drop_last()) == 0);
    }
}

proof fn lemma_links_choices(links: Seq<Seq<Presentation>>)
    ensures
        choice_count(links_analysis(links).elements) == links_analysis(links).counts.resolve,
    decreases links.len(),
{
    if links.len() > 0 {
        lemma_links_choices(links.drop_last());
        lemma_fixed_accounted(unsanctioned(links.last().len()), seq!['\u{200D}']);
        lemma_concat_choices(links_analysis(links.drop_last()), link_analysis(links.last()));
    }
}

proof fn lemma_joined_choices(joined: Seq<JoinedModel>, policy: Policy)
    ensures
        choice_count(joined_findings(joined, policy).elements) == joined_findings(
            joined,
            policy,
        ).counts.resolve,
    decreases joined.len(),
{
    if joined.len() > 0 {
        let j = joined.last();
        lemma_joined_choices(joined.drop_last(), policy);
        lemma_fixed_accounted(unsanctioned(j.link.len()), seq!['\u{200D}']);
        lemma_component_findings_choices(j.emoji, policy);
        lemma_concat_choices(joined_findings(joined.drop_last(), policy), link_analysis(j.link));
        lemma_concat_choices(
            concat_analysis(joined_findings(joined.drop_last(), policy), link_analysis(j.link)),
            component_findings(j.emoji, policy),
        );
    }
}

/// For an item of a scan with a finding: the finding counts something,
/// counts no missing selector, and has one decision slot per base to
/// resolve.
pub proof fn lemma_findings_accounting(s: Seq<char>, m: ItemModel, policy: Policy)
    requires
        item_wf(s, m),
        item_findings(m.kind, policy) is Some,
    ensures
        ({
            let a = item_findings(m.kind, policy)->0;
            &&& !is_zero(a.counts)
            &&& a.counts.missing == 0
            &&& choice_count(a.elements) == a.counts.resolve
        }),
{
    let a = item_findings(m.kind, policy)->0;
    match m.kind {
        KindModel::Selectors { selectors } => {
            assert(selector_chars(selectors).len() == selectors.len());
            lemma_fixed_accounted(a.counts, Seq::empty());
        },
        KindModel::Sequence { sequence } => {
            lemma_sequence_findings_missing(sequence, policy);
            match sequence {
                SequenceModel::LinksOnly { links } => lemma_links_choices(links),
                SequenceModel::EmojiHeaded { first, joined, trailing } => {
                    lemma_component_findings_choices(first, policy);
                    lemma_joined_choices(joined, policy);
                    lemma_links_choices(trailing);
                    lemma_concat_choices(
                        component_findings(first, policy),
                        joined_findings(joined, policy),
                    );
                    lemma_concat_choices(
                        concat_analysis(
                            component_findings(first, policy),
                            joined_findings(joined, policy),
                        ),
                        links_analysis(trailing),
                    );
                },
            }
        },
        KindModel::Passthrough => {},
    }
}

proof fn lemma_component_findings_strips_to(e: EmojiModel, policy: Policy)
    ensures
        strips_to(component_findings(e, policy).elements, emoji_text(e)),
{
    let ms = e.modifiers;
    let a = component_findings(e, policy);
    match e.stem {
        StemModel::SingletonBase { base, selectors } => {
            assert(emoji_text(e) =~= seq![base] + selector_chars(selectors) + modifications_text(ms));
            if a.elements.len() == 1 && a.elements[0] is Choice {
                lemma_strip_singleton(base, Some(Presentation::Text), selectors, ms);
                lemma_strip_singleton(base, Some(Presentation::Emoji), selectors, ms);
                assert forall|ds: Seq<Presentation>|
                    ds.len() == choice_count(a.elements) implies #[trigger] strip_selectors(
                    render_with(a.elements, ds),
                ) == strip_selectors(emoji_text(e)) by {
                    assert(a.elements.drop_last() =~= Seq::<ElementModel>::empty());
                    assert(choice_count(a.elements.drop_last()) == 0);
                    assert(render_with(a.elements.drop_last(), ds.drop_last()) =~= Seq::<
                        char,
                    >::empty());
                    assert(render_with(a.elements, ds) =~= crate::analysis::choice_text(
                        a.elements.last(),
                        ds.last(),
                    ));
                }
            } else {
                let p = choose|p: Option<Presentation>|
                    a == fixed_analysis(a.counts, render_singleton(base, p, ms));
                lemma_strip_singleton(base, p, selectors, ms);
                lemma_fixed_strips_to(a.counts, render_singleton(base, p, ms), emoji_text(e));
            }
        },
        StemModel::Flag { .. } => {
            crate::analysis::lemma_component_strips_to(e, policy);
            assert(crate::analysis::component_analysis(e, policy) == a);
        },
    }
}

proof fn lemma_joined_findings_strips_to(joined: Seq<JoinedModel>, policy: Policy)
    ensures
        strips_to(joined_findings(joined, policy).elements, joined_text(joined)),
    decreases joined.len(),
{
    if joined.len() == 0 {
        lemma_empty_strips_to();
    } else {
        let j = joined.last();
        lemma_joined_findings_strips_to(joined.drop_last(), policy);
        lemma_link_strips_to(j.link);
        lemma_component_findings_strips_to(j.emoji, policy);
        lemma_strips_to_concat(
            joined_findings(joined.drop_last(), policy),
            joined_text(joined.drop_last()),
            link_analysis(j.link),
            link_text(j.link),
        );
        lemma_strips_to_concat(
            concat_analysis(joined_findings(joined.drop_last(), policy), link_analysis(j.link)),
            joined_text(joined.drop_last()) + link_text(j.link),
            component_findings(j.emoji, policy),
            emoji_text(j.emoji),
        );
    }
}

/// For an item of a scan with a finding, every valid decision vector gives
/// a replacement that differs from the item's text only in presentation
/// selectors.
pub proof fn lemma_findings_change_only_selectors(
    s: Seq<char>,
    m: ItemModel,
    policy: Policy,
    ds: Seq<Presentation>,
)
    requires
        item_wf(s, m),
        item_findings(m.kind, policy) is Some,
        ds.len() == choice_count(item_findings(m.kind, policy)->0.elements),
    ensures
        strip_selectors(render_with(item_findings(m.kind, policy)->0.elements, ds))
            == strip_selectors(s.subrange(m.start, m.end)),
{
    match m.kind {
        KindModel::Selectors { selectors } => {
            lemma_strip_selector_chars(selectors);
            lemma_fixed_strips_to(
                unsanctioned(selectors.len()),
                Seq::empty(),
                s.subrange(m.start, m.end),
            );
        },
        KindModel::Sequence { sequence } => {
            match sequence {
                SequenceModel::LinksOnly { links } => lemma_links_strips_to(links),
                SequenceModel::EmojiHeaded { first, joined, trailing } => {
                    lemma_component_findings_strips_to(first, policy);
                    lemma_joined_findings_strips_to(joined, policy);
                    lemma_links_strips_to(trailing);
                    lemma_strips_to_concat(
                        component_findings(first, policy),
                        emoji_text(first),
                        joined_findings(joined, policy),
                        joined_text(joined),
                    );
                    lemma_strips_to_concat(
                        concat_analysis(
                            component_findings(first, policy),
                            joined_findings(joined, policy),
                        ),
                        emoji_text(first) + joined_text(joined),
                        links_analysis(trailing),
                        links_text(trailing),
                    );
                },
            }
        },
        KindModel::Passthrough => {},
    }
}

} // verus!
