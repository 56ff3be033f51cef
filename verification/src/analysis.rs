//! Policy-aware analysis of scanned emoji variation structures.
//!
//! [`analyze_scan_item`] turns one scanned item into a [`Finding`] when the
//! item is not canonical under a [`Policy`]. A finding counts why the item is
//! non-canonical ([`NonCanonicality`]) and holds its replacement: fixed text
//! pieces and, for each bare base that policy leaves to the caller, a
//! text/emoji choice.
//!
//! The behaviour is stated over a model: [`item_analysis`] gives the counts
//! and the replacement pieces of a scanned item's structure.

use std::ops::Range;

use vstd::prelude::*;
use vstd::utf8::encode_utf8;

use crate::policy::{Policy, SingletonRule};
use crate::presentation::{
    is_selector_char, lemma_strip_concat, lemma_strip_selector_chars, selector_char, selector_chars,
    strip_selectors, Presentation,
};
use crate::scanner::{
    emoji_text, item_wf, joined_text, link_text, links_text, modification_text,
    modifications_text, sequence_text, stem_text, tag_run_text, tag_runs_text, EmojiLike,
    EmojiModel, EmojiModification, EmojiSequence, EmojiStem, EmojiTagRun, ItemModel, JoinedModel,
    KindModel, ModificationModel, ScanItem, ScanKind, SequenceModel, StemModel, TagRunModel,
    ZwjJoinedEmoji, ZwjLink,
};
use crate::text::push_char;
use crate::utf8::lemma_encode_concat;
use crate::unicode::{self, emoji_default, has_vs};

verus! {

// --- Counts ---

/// Model of a non-canonicality summary.
pub struct Counts {
    pub unsanctioned: nat,
    pub defective: nat,
    pub redundant: nat,
    pub missing: nat,
    pub resolve: nat,
}

pub open spec fn counts(
    unsanctioned: nat,
    defective: nat,
    redundant: nat,
    missing: nat,
    resolve: nat,
) -> Counts {
    Counts { unsanctioned, defective, redundant, missing, resolve }
}

pub open spec fn zero_counts() -> Counts {
    counts(0, 0, 0, 0, 0)
}

pub open spec fn unsanctioned(n: nat) -> Counts {
    counts(n, 0, 0, 0, 0)
}

pub open spec fn add_counts(a: Counts, b: Counts) -> Counts {
    counts(
        a.unsanctioned + b.unsanctioned,
        a.defective + b.defective,
        a.redundant + b.redundant,
        a.missing + b.missing,
        a.resolve + b.resolve,
    )
}

/// The sum of all counts.
pub open spec fn total(c: Counts) -> nat {
    c.unsanctioned + c.defective + c.redundant + c.missing + c.resolve
}

// --- Replacement pieces ---

/// Model of one replacement piece: fixed text, or a text/emoji choice with
/// its default and the text for each decision.
pub enum ElementModel {
    Fixed { text: Seq<char> },
    Choice { default: Presentation, text: Seq<char>, emoji: Seq<char> },
}

/// Model of an analysis: its counts and its replacement pieces.
pub struct AnalysisModel {
    pub counts: Counts,
    pub elements: Seq<ElementModel>,
}

pub open spec fn concat_analysis(a: AnalysisModel, b: AnalysisModel) -> AnalysisModel {
    AnalysisModel { counts: add_counts(a.counts, b.counts), elements: a.elements + b.elements }
}

pub open spec fn empty_analysis() -> AnalysisModel {
    AnalysisModel { counts: zero_counts(), elements: Seq::empty() }
}

pub open spec fn fixed_analysis(c: Counts, text: Seq<char>) -> AnalysisModel {
    AnalysisModel { counts: c, elements: seq![ElementModel::Fixed { text }] }
}

/// The text a choice gives for decision `d`.
pub open spec fn choice_text(e: ElementModel, d: Presentation) -> Seq<char> {
    match e {
        ElementModel::Fixed { text } => text,
        ElementModel::Choice { text, emoji, .. } => match d {
            Presentation::Text => text,
            Presentation::Emoji => emoji,
        },
    }
}

/// The text of one piece under its default decision.
pub open spec fn element_default_text(e: ElementModel) -> Seq<char> {
    match e {
        ElementModel::Fixed { text } => text,
        ElementModel::Choice { default, .. } => choice_text(e, default),
    }
}

/// The replacement under the default decision of every choice.
pub open spec fn render_default(elems: Seq<ElementModel>) -> Seq<char>
    decreases elems.len(),
{
    if elems.len() == 0 {
        Seq::empty()
    } else {
        render_default(elems.drop_last()) + element_default_text(elems.last())
    }
}

/// The number of choices among the pieces.
pub open spec fn choice_count(elems: Seq<ElementModel>) -> nat
    decreases elems.len(),
{
    if elems.len() == 0 {
        0
    } else {
        choice_count(elems.drop_last()) + if elems.last() is Choice {
            1nat
        } else {
            0nat
        }
    }
}

/// The default decisions of the choices, in order.
pub open spec fn default_decisions(elems: Seq<ElementModel>) -> Seq<Presentation>
    decreases elems.len(),
{
    if elems.len() == 0 {
        Seq::empty()
    } else {
        default_decisions(elems.drop_last()) + match elems.last() {
            ElementModel::Choice { default, .. } => seq![default],
            ElementModel::Fixed { .. } => Seq::empty(),
        }
    }
}

/// The replacement when the choices are decided by `ds`, one decision per
/// choice in order.
pub open spec fn render_with(elems: Seq<ElementModel>, ds: Seq<Presentation>) -> Seq<char>
    decreases elems.len(),
{
    if elems.len() == 0 {
        Seq::empty()
    } else {
        match elems.last() {
            ElementModel::Fixed { text } => render_with(elems.drop_last(), ds) + text,
            ElementModel::Choice { .. } => render_with(elems.drop_last(), ds.drop_last())
                + choice_text(elems.last(), ds.last()),
        }
    }
}

// --- Singleton analysis ---

/// How the selector run right after a singleton base is resolved.
pub enum BaseOutcome {
    /// One canonical presentation for the base (`None`: bare).
    Deterministic { canonical: Option<Presentation>, counts: Counts },
    /// The bare base is left to the caller, with a default presentation.
    NeedsDecision { default: Presentation, counts: Counts },
}

/// The selector text of an optional presentation.
pub open spec fn presentation_text(p: Option<Presentation>) -> Seq<char> {
    match p {
        Some(p) => seq![selector_char(p)],
        None => Seq::empty(),
    }
}

/// An optional presentation as a run of zero or one presentations.
pub open spec fn presentation_run(p: Option<Presentation>) -> Seq<Presentation> {
    match p {
        Some(p) => seq![p],
        None => Seq::empty(),
    }
}

/// Whether the rule makes a first selector `first` redundant.
pub open spec fn redundant_under(rule: SingletonRule, first: Presentation) -> bool {
    (rule == SingletonRule::TextToBare && first == Presentation::Text) || (rule
        == SingletonRule::EmojiToBare && first == Presentation::Emoji)
}

/// Policy resolution of the selector run after a standalone base with a
/// variation sequence.
pub open spec fn policy_outcome(
    base: char,
    sels: Seq<Presentation>,
    is_keycap: bool,
    policy: Policy,
) -> BaseOutcome {
    let rule = policy.rule(base, is_keycap);
    if sels.len() >= 2 {
        if redundant_under(rule, sels[0]) {
            BaseOutcome::Deterministic {
                canonical: None,
                counts: counts((sels.len() - 1) as nat, 0, 1, 0, 0),
            }
        } else {
            BaseOutcome::Deterministic {
                canonical: Some(sels[0]),
                counts: unsanctioned((sels.len() - 1) as nat),
            }
        }
    } else if sels.len() == 1 {
        if redundant_under(rule, sels[0]) {
            BaseOutcome::Deterministic { canonical: None, counts: counts(0, 0, 1, 0, 0) }
        } else {
            BaseOutcome::Deterministic { canonical: Some(sels[0]), counts: zero_counts() }
        }
    } else {
        match rule {
            SingletonRule::BareToEmoji => BaseOutcome::NeedsDecision {
                default: Presentation::Emoji,
                counts: counts(0, 0, 0, 0, 1),
            },
            SingletonRule::BareToText => BaseOutcome::NeedsDecision {
                default: Presentation::Text,
                counts: counts(0, 0, 0, 0, 1),
            },
            _ => BaseOutcome::Deterministic { canonical: None, counts: zero_counts() },
        }
    }
}

/// The resolution of the selector run `sels` right after `base`, in the
/// context of the first modification after it.
///
/// In order of precedence: a base without variation sequences stays bare; a
/// leading text selector before an emoji modifier stays; otherwise an emoji
/// modifier takes a bare base (a leading emoji selector is a defect); a tag
/// modifier takes emoji presentation, bare on an emoji-default base; in
/// every other context policy decides, in the keycap domain before an
/// enclosing keycap.
pub open spec fn base_outcome(
    base: char,
    sels: Seq<Presentation>,
    first: Option<ModificationModel>,
    policy: Policy,
) -> BaseOutcome {
    if !has_vs(base) {
        BaseOutcome::Deterministic { canonical: None, counts: unsanctioned(sels.len()) }
    } else {
        match first {
            Some(ModificationModel::EmojiModifier { .. }) => if sels.len() > 0 && sels[0]
                == Presentation::Text {
                BaseOutcome::Deterministic {
                    canonical: Some(Presentation::Text),
                    counts: unsanctioned((sels.len() - 1) as nat),
                }
            } else if sels.len() == 0 {
                BaseOutcome::Deterministic { canonical: None, counts: zero_counts() }
            } else {
                BaseOutcome::Deterministic {
                    canonical: None,
                    counts: counts((sels.len() - 1) as nat, 1, 0, 0, 0),
                }
            },
            Some(ModificationModel::TagModifier { .. }) => {
                let canonical = if emoji_default(base) {
                    None
                } else {
                    Some(Presentation::Emoji)
                };
                let c = presentation_run(canonical);
                if sels == c {
                    BaseOutcome::Deterministic { canonical, counts: zero_counts() }
                } else if sels.len() >= c.len() && sels.take(c.len() as int) == c {
                    BaseOutcome::Deterministic {
                        canonical,
                        counts: unsanctioned((sels.len() - c.len()) as nat),
                    }
                } else {
                    BaseOutcome::Deterministic {
                        canonical,
                        counts: counts(sels.len(), 0, 0, c.len(), 0),
                    }
                }
            },
            Some(ModificationModel::EnclosingKeycap { .. }) => policy_outcome(
                base,
                sels,
                true,
                policy,
            ),
            None => policy_outcome(base, sels, false, policy),
        }
    }
}

/// The text a modification keeps once its trailing selectors are removed.
pub open spec fn stripped_modification_text(m: ModificationModel) -> Seq<char> {
    match m {
        ModificationModel::EmojiModifier { modifier, .. } => seq![modifier],
        ModificationModel::EnclosingKeycap { .. } => seq!['\u{20E3}'],
        ModificationModel::TagModifier { runs } => tag_chars_text(runs),
    }
}

/// The tag characters of a run list, without the selectors between runs.
pub open spec fn tag_chars_text(runs: Seq<TagRunModel>) -> Seq<char>
    decreases runs.len(),
{
    if runs.len() == 0 {
        Seq::empty()
    } else {
        runs[0].tag + tag_chars_text(runs.drop_first())
    }
}

pub open spec fn stripped_modifications_text(ms: Seq<ModificationModel>) -> Seq<char>
    decreases ms.len(),
{
    if ms.len() == 0 {
        Seq::empty()
    } else {
        stripped_modification_text(ms[0]) + stripped_modifications_text(ms.drop_first())
    }
}

/// The number of selectors after the tag runs of a run list.
pub open spec fn tag_selector_count(runs: Seq<TagRunModel>) -> nat
    decreases runs.len(),
{
    if runs.len() == 0 {
        0
    } else {
        runs[0].selectors.len() + tag_selector_count(runs.drop_first())
    }
}

/// The number of selectors trailing a modification.
pub open spec fn modification_selector_count(m: ModificationModel) -> nat {
    match m {
        ModificationModel::EmojiModifier { selectors, .. } => selectors.len(),
        ModificationModel::EnclosingKeycap { selectors } => selectors.len(),
        ModificationModel::TagModifier { runs } => tag_selector_count(runs),
    }
}

pub open spec fn modifications_selector_count(ms: Seq<ModificationModel>) -> nat
    decreases ms.len(),
{
    if ms.len() == 0 {
        0
    } else {
        modification_selector_count(ms[0]) + modifications_selector_count(ms.drop_first())
    }
}

/// A singleton base with the given presentation, followed by its
/// modifications without their selectors.
pub open spec fn render_singleton(
    base: char,
    p: Option<Presentation>,
    ms: Seq<ModificationModel>,
) -> Seq<char> {
    seq![base] + presentation_text(p) + stripped_modifications_text(ms)
}

/// A flag without selectors, followed by its modifications without their
/// selectors.
pub open spec fn render_flag(first: char, second: char, ms: Seq<ModificationModel>) -> Seq<char> {
    seq![first, second] + stripped_modifications_text(ms)
}

pub open spec fn first_modification(ms: Seq<ModificationModel>) -> Option<ModificationModel> {
    if ms.len() > 0 {
        Some(ms[0])
    } else {
        None
    }
}

/// The analysis of one emoji-like component.
pub open spec fn component_analysis(e: EmojiModel, policy: Policy) -> AnalysisModel {
    let ms = e.modifiers;
    match e.stem {
        StemModel::SingletonBase { base, selectors } => {
            let cleanup = unsanctioned(modifications_selector_count(ms));
            match base_outcome(base, selectors, first_modification(ms), policy) {
                BaseOutcome::Deterministic { canonical, counts } => fixed_analysis(
                    add_counts(counts, cleanup),
                    render_singleton(base, canonical, ms),
                ),
                BaseOutcome::NeedsDecision { default, counts } => AnalysisModel {
                    counts: add_counts(counts, cleanup),
                    elements: seq![
                        ElementModel::Choice {
                            default,
                            text: render_singleton(base, Some(Presentation::Text), ms),
                            emoji: render_singleton(base, Some(Presentation::Emoji), ms),
                        },
                    ],
                },
            }
        },
        StemModel::Flag { first_ri, first_selectors, second_ri, second_selectors } =>
            fixed_analysis(
            unsanctioned(
                first_selectors.len() + second_selectors.len() + modifications_selector_count(ms),
            ),
            render_flag(first_ri, second_ri, ms),
        ),
    }
}

/// A ZWJ link keeps its joiner; the selectors after it are removed.
pub open spec fn link_analysis(link: Seq<Presentation>) -> AnalysisModel {
    fixed_analysis(unsanctioned(link.len()), seq!['\u{200D}'])
}

pub open spec fn links_analysis(links: Seq<Seq<Presentation>>) -> AnalysisModel
    decreases links.len(),
{
    if links.len() == 0 {
        empty_analysis()
    } else {
        concat_analysis(links_analysis(links.drop_last()), link_analysis(links.last()))
    }
}

pub open spec fn joined_analysis(joined: Seq<JoinedModel>, policy: Policy) -> AnalysisModel
    decreases joined.len(),
{
    if joined.len() == 0 {
        empty_analysis()
    } else {
        concat_analysis(
            concat_analysis(
                joined_analysis(joined.drop_last(), policy),
                link_analysis(joined.last().link),
            ),
            component_analysis(joined.last().emoji, policy),
        )
    }
}

/// The analysis of an emoji sequence: its parts analysed in source order,
/// each component by itself.
pub open spec fn sequence_analysis(sq: SequenceModel, policy: Policy) -> AnalysisModel {
    match sq {
        SequenceModel::LinksOnly { links } => links_analysis(links),
        SequenceModel::EmojiHeaded { first, joined, trailing } => concat_analysis(
            concat_analysis(component_analysis(first, policy), joined_analysis(joined, policy)),
            links_analysis(trailing),
        ),
    }
}

/// Whether a summary counts nothing.
pub open spec fn is_zero(c: Counts) -> bool {
    total(c) == 0
}

/// The analysis of a scanned item's kind, when the item is non-canonical:
/// passthrough is never analysed; a selector run is removed whole; an emoji
/// sequence is a finding when its analysis counts anything.
pub open spec fn item_analysis(kind: KindModel, policy: Policy) -> Option<AnalysisModel> {
    match kind {
        KindModel::Passthrough => None,
        KindModel::Selectors { selectors } => Some(
            fixed_analysis(unsanctioned(selectors.len()), Seq::empty()),
        ),
        KindModel::Sequence { sequence } => {
            let a = sequence_analysis(sequence, policy);
            if is_zero(a.counts) {
                None
            } else {
                Some(a)
            }
        },
    }
}

// --- Non-canonicality summaries ---

/// Count summary for why a scanned item is non-canonical.
///
/// These axes are compositional rather than mutually exclusive: a finding may
/// at once include selector cleanup, sequence defects, redundant selectors,
/// missing required selectors and bare bases left to the caller.
#[derive(Debug, Clone, Copy, PartialEq, Eq, Hash)]
#[non_exhaustive]
pub struct NonCanonicality {
    /// Count of presentation selectors removed as unsanctioned cleanup.
    pub unsanctioned_selectors: usize,
    /// Count of deterministic sequence defects that need repair but expose no
    /// policy choice.
    pub defective_sequences: usize,
    /// Count of sanctioned selectors dropped because the policy prefers bare
    /// form.
    pub redundant_selectors: usize,
    /// Count of selectors a structure requires but the source lacks.
    pub missing_required_selectors: usize,
    /// Count of bare base slots that the policy asks callers to resolve.
    pub bases_to_resolve: usize,
}

impl View for NonCanonicality {
    type V = Counts;

    open spec fn view(&self) -> Counts {
        counts(
            self.unsanctioned_selectors as nat,
            self.defective_sequences as nat,
            self.redundant_selectors as nat,
            self.missing_required_selectors as nat,
            self.bases_to_resolve as nat,
        )
    }
}

impl NonCanonicality {
    /// Create an explicit non-canonicality summary.
    pub fn new(
        unsanctioned_selectors: usize,
        defective_sequences: usize,
        redundant_selectors: usize,
        missing_required_selectors: usize,
        bases_to_resolve: usize,
    ) -> (r: Self)
        ensures
            r.unsanctioned_selectors == unsanctioned_selectors,
            r.defective_sequences == defective_sequences,
            r.redundant_selectors == redundant_selectors,
            r.missing_required_selectors == missing_required_selectors,
            r.bases_to_resolve == bases_to_resolve,
    {
        NonCanonicality {
            unsanctioned_selectors,
            defective_sequences,
            redundant_selectors,
            missing_required_selectors,
            bases_to_resolve,
        }
    }

    pub(crate) fn unsanctioned(count: usize) -> (r: Self)
        ensures
            r@ == unsanctioned(count as nat),
    {
        NonCanonicality::new(count, 0, 0, 0, 0)
    }

    pub(crate) fn plus(self, rhs: Self) -> (r: Self)
        requires
            total(self@) + total(rhs@) <= usize::MAX,
        ensures
            r@ == add_counts(self@, rhs@),
    {
        NonCanonicality::new(
            self.unsanctioned_selectors + rhs.unsanctioned_selectors,
            self.defective_sequences + rhs.defective_sequences,
            self.redundant_selectors + rhs.redundant_selectors,
            self.missing_required_selectors + rhs.missing_required_selectors,
            self.bases_to_resolve + rhs.bases_to_resolve,
        )
    }

    pub(crate) fn is_empty(self) -> (r: bool)
        ensures
            r == is_zero(self@),
    {
        self.unsanctioned_selectors == 0 && self.defective_sequences == 0
            && self.redundant_selectors == 0 && self.missing_required_selectors == 0
            && self.bases_to_resolve == 0
    }
}

impl Default for NonCanonicality {
    fn default() -> (r: Self)
        ensures
            r@ == zero_counts(),
    {
        NonCanonicality::new(0, 0, 0, 0, 0)
    }
}

impl vstd::std_specs::ops::AddSpecImpl for NonCanonicality {
    open spec fn obeys_add_spec() -> bool {
        true
    }

    open spec fn add_req(self, rhs: NonCanonicality) -> bool {
        &&& self.unsanctioned_selectors + rhs.unsanctioned_selectors <= usize::MAX
        &&& self.defective_sequences + rhs.defective_sequences <= usize::MAX
        &&& self.redundant_selectors + rhs.redundant_selectors <= usize::MAX
        &&& self.missing_required_selectors + rhs.missing_required_selectors <= usize::MAX
        &&& self.bases_to_resolve + rhs.bases_to_resolve <= usize::MAX
    }

    open spec fn add_spec(self, rhs: NonCanonicality) -> NonCanonicality {
        sum_summaries(self, rhs)
    }
}

/// The field-wise sum of two summaries.
pub closed spec fn sum_summaries(a: NonCanonicality, b: NonCanonicality) -> NonCanonicality {
    NonCanonicality {
        unsanctioned_selectors: (a.unsanctioned_selectors + b.unsanctioned_selectors) as usize,
        defective_sequences: (a.defective_sequences + b.defective_sequences) as usize,
        redundant_selectors: (a.redundant_selectors + b.redundant_selectors) as usize,
        missing_required_selectors: (a.missing_required_selectors
            + b.missing_required_selectors) as usize,
        bases_to_resolve: (a.bases_to_resolve + b.bases_to_resolve) as usize,
    }
}

impl core::ops::Add for NonCanonicality {
    type Output = NonCanonicality;

    fn add(self, rhs: NonCanonicality) -> (r: NonCanonicality)
        ensures
            r@ == add_counts(self@, rhs@),
    {
        NonCanonicality::new(
            self.unsanctioned_selectors + rhs.unsanctioned_selectors,
            self.defective_sequences + rhs.defective_sequences,
            self.redundant_selectors + rhs.redundant_selectors,
            self.missing_required_selectors + rhs.missing_required_selectors,
            self.bases_to_resolve + rhs.bases_to_resolve,
        )
    }
}

// --- Replacement pieces ---

#[derive(Debug, PartialEq, Eq)]
pub(crate) enum ReplacementElement {
    Fixed(String),
    Choice { default: Presentation, text: String, emoji: String },
}

impl View for ReplacementElement {
    type V = ElementModel;

    closed spec fn view(&self) -> ElementModel {
        match self {
            ReplacementElement::Fixed(text) => ElementModel::Fixed { text: text@ },
            ReplacementElement::Choice { default, text, emoji } => ElementModel::Choice {
                default: *default,
                text: text@,
                emoji: emoji@,
            },
        }
    }
}

impl Clone for ReplacementElement {
    fn clone(&self) -> (r: Self)
        ensures
            r@ == self@,
    {
        match self {
            ReplacementElement::Fixed(text) => ReplacementElement::Fixed(text.clone()),
            ReplacementElement::Choice { default, text, emoji } => ReplacementElement::Choice {
                default: *default,
                text: text.clone(),
                emoji: emoji.clone(),
            },
        }
    }
}

pub(crate) closed spec fn elements_view(elems: Seq<ReplacementElement>) -> Seq<ElementModel> {
    elems.map_values(|e: ReplacementElement| e@)
}

#[derive(Debug, PartialEq, Eq)]
pub(crate) struct ReplacementAnalysis {
    non_canonicality: NonCanonicality,
    elements: Vec<ReplacementElement>,
}

impl View for ReplacementAnalysis {
    type V = AnalysisModel;

    closed spec fn view(&self) -> AnalysisModel {
        AnalysisModel { counts: self.non_canonicality@, elements: elements_view(self.elements@) }
    }
}

impl Clone for ReplacementAnalysis {
    fn clone(&self) -> (r: Self)
        ensures
            r@ == self@,
    {
        let mut elements: Vec<ReplacementElement> = Vec::new();
        let mut k: usize = 0;
        while k < self.elements.len()
            invariant
                k <= self.elements@.len(),
                elements@.len() == k,
                forall|j: int| 0 <= j < k ==> (#[trigger] elements@[j])@ == self.elements@[j]@,
            decreases self.elements@.len() - k,
        {
            elements.push(self.elements[k].clone());
            k = k + 1;
        }
        proof {
            assert(elements_view(elements@) =~= elements_view(self.elements@));
        }
        ReplacementAnalysis { non_canonicality: self.non_canonicality, elements }
    }
}

impl ReplacementAnalysis {
    /// The counts.
    pub(crate) fn counts(&self) -> (r: NonCanonicality)
        ensures
            r@ == self@.counts,
    {
        self.non_canonicality
    }

    /// One text/emoji choice with counts `c`.
    pub(crate) fn choice(c: NonCanonicality, default: Presentation, text: String, emoji: String) -> (r: Self)
        ensures
            r@ == (AnalysisModel {
                counts: c@,
                elements: seq![ElementModel::Choice { default, text: text@, emoji: emoji@ }],
            }),
    {
        let mut elements = Vec::new();
        elements.push(ReplacementElement::Choice { default, text, emoji });
        proof {
            assert(elements_view(elements@) =~= seq![ElementModel::Choice { default, text: text@, emoji: emoji@ }]);
        }
        ReplacementAnalysis { non_canonicality: c, elements }
    }

    pub(crate) fn fixed(non_canonicality: NonCanonicality, text: String) -> (r: Self)
        ensures
            r@ == fixed_analysis(non_canonicality@, text@),
    {
        let mut elements = Vec::new();
        elements.push(ReplacementElement::Fixed(text));
        proof {
            assert(elements_view(elements@) =~= seq![ElementModel::Fixed { text: text@ }]);
        }
        ReplacementAnalysis { non_canonicality, elements }
    }

    pub(crate) fn append(&mut self, other: ReplacementAnalysis)
        requires
            total(old(self)@.counts) + total(other@.counts) <= usize::MAX,
        ensures
            final(self)@ == concat_analysis(old(self)@, other@),
    {
        let ghost before = self.elements@;
        let mut elements = other.elements;
        let ghost added = elements@;
        self.non_canonicality = self.non_canonicality.plus(other.non_canonicality);
        self.elements.append(&mut elements);
        proof {
            assert(elements_view(self.elements@) =~= elements_view(before) + elements_view(added));
        }
    }

    /// The decision vector formatting applies by default: one presentation
    /// per ambiguous selector slot, in source order.
    pub(crate) fn default_decision_vec(&self) -> (r: Vec<Presentation>)
        ensures
            r@ == default_decisions(self@.elements),
    {
        let ghost ev = elements_view(self.elements@);
        let mut out: Vec<Presentation> = Vec::new();
        let mut k: usize = 0;
        while k < self.elements.len()
            invariant
                ev == elements_view(self.elements@),
                ev == self@.elements,
                k <= ev.len(),
                out@ == default_decisions(ev.take(k as int)),
            decreases ev.len() - k,
        {
            proof {
                assert(ev.take(k as int + 1).drop_last() =~= ev.take(k as int));
            }
            match &self.elements[k] {
                ReplacementElement::Choice { default, .. } => {
                    out.push(*default);
                    proof {
                        assert(out@ =~= default_decisions(ev.take(k as int + 1)));
                    }
                },
                ReplacementElement::Fixed(_) => {
                    proof {
                        assert(out@ =~= default_decisions(ev.take(k as int + 1)));
                    }
                },
            }
            k = k + 1;
        }
        proof {
            assert(ev.take(k as int) =~= ev);
        }
        out
    }

    /// The replacement under the default decision of every choice.
    pub(crate) fn default_text(&self) -> (r: String)
        ensures
            r@ == render_default(self@.elements),
    {
        let ghost ev = elements_view(self.elements@);
        let mut out = String::new();
        let mut k: usize = 0;
        proof {
            assert(ev.take(0) =~= Seq::<ElementModel>::empty());
        }
        while k < self.elements.len()
            invariant
                ev == elements_view(self.elements@),
                ev == self@.elements,
                k <= ev.len(),
                out@ == render_default(ev.take(k as int)),
            decreases ev.len() - k,
        {
            proof {
                assert(ev.take(k as int + 1).drop_last() =~= ev.take(k as int));
            }
            match &self.elements[k] {
                ReplacementElement::Fixed(text) => out.append(text.as_str()),
                ReplacementElement::Choice { default, text, emoji } => match default {
                    Presentation::Text => out.append(text.as_str()),
                    Presentation::Emoji => out.append(emoji.as_str()),
                },
            }
            k = k + 1;
        }
        proof {
            assert(ev.take(k as int) =~= ev);
        }
        out
    }

    /// The whole-item replacement for a decision vector with one decision
    /// per choice, in order; `None` when the vector has the wrong length.
    pub(crate) fn text_with(&self, decisions: &[Presentation]) -> (r: Option<String>)
        ensures
            decisions@.len() == choice_count(self@.elements) ==> (r matches Some(text)
                && text@ == render_with(self@.elements, decisions@)),
            decisions@.len() != choice_count(self@.elements) ==> r is None,
    {
        let ghost ev = elements_view(self.elements@);
        let mut out = String::new();
        let mut k: usize = 0;
        let mut used: usize = 0;
        proof {
            assert(ev.take(0) =~= Seq::<ElementModel>::empty());
            assert(decisions@.take(0) =~= Seq::<Presentation>::empty());
        }
        while k < self.elements.len()
            invariant
                ev == elements_view(self.elements@),
                ev == self@.elements,
                k <= ev.len(),
                used == choice_count(ev.take(k as int)),
                used <= decisions@.len(),
                out@ == render_with(ev.take(k as int), decisions@.take(used as int)),
            decreases ev.len() - k,
        {
            proof {
                assert(ev.take(k as int + 1).drop_last() =~= ev.take(k as int));
            }
            match &self.elements[k] {
                ReplacementElement::Fixed(text) => {
                    out.append(text.as_str());
                },
                ReplacementElement::Choice { text, emoji, .. } => {
                    if used >= decisions.len() {
                        proof {
                            lemma_choice_count_prefix(ev, k as int + 1);
                        }
                        return None;
                    }
                    match decisions[used] {
                        Presentation::Text => out.append(text.as_str()),
                        Presentation::Emoji => out.append(emoji.as_str()),
                    }
                    proof {
                        assert(decisions@.take(used as int + 1).drop_last() =~= decisions@.take(
                            used as int,
                        ));
                    }
                    used = used + 1;
                },
            }
            k = k + 1;
        }
        proof {
            assert(ev.take(k as int) =~= ev);
        }
        if used != decisions.len() {
            return None;
        }
        proof {
            assert(decisions@.take(used as int) =~= decisions@);
        }
        Some(out)
    }
}

// --- Rendering ---

/// Appends the tag characters of `runs`, without their selectors.
fn push_tag_chars(out: &mut String, runs: &Vec<EmojiTagRun>)
    ensures
        final(out)@ == old(out)@ + tag_chars_text(crate::scanner::tag_runs_view(runs@)),
{
    let ghost rv = crate::scanner::tag_runs_view(runs@);
    let ghost start = out@;
    let mut k: usize = 0;
    proof {
        assert(rv.skip(0) =~= rv);
    }
    while k < runs.len()
        invariant
            rv == crate::scanner::tag_runs_view(runs@),
            k <= runs.len(),
            out@ + tag_chars_text(rv.skip(k as int)) == start + tag_chars_text(rv),
        decreases runs.len() - k,
    {
        let run = &runs[k];
        let ghost before = out@;
        let mut j: usize = 0;
        while j < run.tag.len()
            invariant
                j <= run.tag.len(),
                out@ == before + run.tag@.take(j as int),
            decreases run.tag.len() - j,
        {
            push_char(out, run.tag[j]);
            j = j + 1;
            proof {
                assert(out@ =~= before + run.tag@.take(j as int));
            }
        }
        proof {
            assert(run.tag@.take(j as int) =~= run.tag@);
            assert(rv.skip(k as int).drop_first() =~= rv.skip(k as int + 1));
            assert(rv.skip(k as int)[0] == rv[k as int]);
            assert(before + tag_chars_text(rv.skip(k as int)) =~= out@ + tag_chars_text(
                rv.skip(k as int + 1),
            ));
        }
        k = k + 1;
    }
    proof {
        assert(rv.skip(k as int) =~= Seq::<TagRunModel>::empty());
        assert(out@ + tag_chars_text(rv.skip(k as int)) =~= out@);
    }
}

/// Appends the modifications `ms` without their trailing selectors.
fn push_stripped_modifications(out: &mut String, ms: &Vec<EmojiModification>)
    ensures
        final(out)@ == old(out)@ + stripped_modifications_text(
            crate::scanner::modifications_view(ms@),
        ),
{
    let ghost mv = crate::scanner::modifications_view(ms@);
    let ghost start = out@;
    let mut k: usize = 0;
    proof {
        assert(mv.skip(0) =~= mv);
    }
    while k < ms.len()
        invariant
            mv == crate::scanner::modifications_view(ms@),
            k <= ms.len(),
            out@ + stripped_modifications_text(mv.skip(k as int)) == start
                + stripped_modifications_text(mv),
        decreases ms.len() - k,
    {
        let ghost before = out@;
        match &ms[k] {
            EmojiModification::EmojiModifier { modifier, .. } => {
                push_char(out, *modifier);
            },
            EmojiModification::EnclosingKeycap { .. } => {
                push_char(out, unicode::COMBINING_ENCLOSING_KEYCAP);
            },
            EmojiModification::TagModifier(runs) => {
                push_tag_chars(out, runs);
            },
        }
        proof {
            assert(out@ =~= before + stripped_modification_text(mv[k as int]));
            assert(mv.skip(k as int).drop_first() =~= mv.skip(k as int + 1));
            assert(mv.skip(k as int)[0] == mv[k as int]);
            assert(before + stripped_modifications_text(mv.skip(k as int)) =~= out@
                + stripped_modifications_text(mv.skip(k as int + 1)));
        }
        k = k + 1;
    }
    proof {
        assert(mv.skip(k as int) =~= Seq::<ModificationModel>::empty());
        assert(out@ + stripped_modifications_text(mv.skip(k as int)) =~= out@);
    }
}

/// A singleton base with presentation `p`, followed by its modifications
/// without their selectors.
pub(crate) fn render_singleton_text(base: char, p: Option<Presentation>, ms: &Vec<EmojiModification>) -> (r:
    String)
    ensures
        r@ == render_singleton(base, p, crate::scanner::modifications_view(ms@)),
{
    let mut out = String::new();
    push_char(&mut out, base);
    match p {
        Some(p) => push_char(&mut out, p.as_selector()),
        None => {},
    }
    push_stripped_modifications(&mut out, ms);
    proof {
        assert(out@ =~= render_singleton(base, p, crate::scanner::modifications_view(ms@)));
    }
    out
}

/// A flag without selectors, followed by its modifications without their
/// selectors.
pub(crate) fn render_flag_text(first: char, second: char, ms: &Vec<EmojiModification>) -> (r: String)
    ensures
        r@ == render_flag(first, second, crate::scanner::modifications_view(ms@)),
{
    let mut out = String::new();
    push_char(&mut out, first);
    push_char(&mut out, second);
    push_stripped_modifications(&mut out, ms);
    proof {
        assert(out@ =~= render_flag(first, second, crate::scanner::modifications_view(ms@)));
    }
    out
}

// --- Counting selectors after modifications ---

fn tag_selector_total(runs: &Vec<EmojiTagRun>) -> (r: usize)
    requires
        tag_selector_count(crate::scanner::tag_runs_view(runs@)) <= usize::MAX,
    ensures
        r == tag_selector_count(crate::scanner::tag_runs_view(runs@)),
{
    let ghost rv = crate::scanner::tag_runs_view(runs@);
    let mut sum: usize = 0;
    let mut k: usize = 0;
    proof {
        assert(rv.skip(0) =~= rv);
    }
    while k < runs.len()
        invariant
            rv == crate::scanner::tag_runs_view(runs@),
            k <= runs.len(),
            tag_selector_count(rv) <= usize::MAX,
            sum + tag_selector_count(rv.skip(k as int)) == tag_selector_count(rv),
        decreases runs.len() - k,
    {
        proof {
            assert(rv.skip(k as int).drop_first() =~= rv.skip(k as int + 1));
            assert(rv.skip(k as int)[0] == rv[k as int]);
        }
        sum = sum + runs[k].presentation_selectors_after_tag.len();
        k = k + 1;
    }
    proof {
        assert(rv.skip(k as int) =~= Seq::<TagRunModel>::empty());
    }
    sum
}

pub(crate) fn modifications_selector_total(ms: &Vec<EmojiModification>) -> (r: usize)
    requires
        modifications_selector_count(crate::scanner::modifications_view(ms@)) <= usize::MAX,
    ensures
        r == modifications_selector_count(crate::scanner::modifications_view(ms@)),
{
    let ghost mv = crate::scanner::modifications_view(ms@);
    let mut sum: usize = 0;
    let mut k: usize = 0;
    proof {
        assert(mv.skip(0) =~= mv);
    }
    while k < ms.len()
        invariant
            mv == crate::scanner::modifications_view(ms@),
            k <= ms.len(),
            modifications_selector_count(mv) <= usize::MAX,
            sum + modifications_selector_count(mv.skip(k as int)) == modifications_selector_count(
                mv,
            ),
        decreases ms.len() - k,
    {
        proof {
            assert(mv.skip(k as int).drop_first() =~= mv.skip(k as int + 1));
            assert(mv.skip(k as int)[0] == mv[k as int]);
        }
        let n = match &ms[k] {
            EmojiModification::EmojiModifier { presentation_selectors_after_modifier, .. } =>
                presentation_selectors_after_modifier.len(),
            EmojiModification::EnclosingKeycap { presentation_selectors_after_keycap } =>
                presentation_selectors_after_keycap.len(),
            EmojiModification::TagModifier(runs) => tag_selector_total(runs),
        };
        sum = sum + n;
        k = k + 1;
    }
    proof {
        assert(mv.skip(k as int) =~= Seq::<ModificationModel>::empty());
    }
    sum
}

// --- Analysing components ---

pub(crate) enum BaseDecision {
    Deterministic(Option<Presentation>, NonCanonicality),
    NeedsDecision(Presentation, NonCanonicality),
}

impl View for BaseDecision {
    type V = BaseOutcome;

    closed spec fn view(&self) -> BaseOutcome {
        match self {
            BaseDecision::Deterministic(canonical, c) => BaseOutcome::Deterministic {
                canonical: *canonical,
                counts: c@,
            },
            BaseDecision::NeedsDecision(default, c) => BaseOutcome::NeedsDecision {
                default: *default,
                counts: c@,
            },
        }
    }
}

fn is_redundant_under(rule: SingletonRule, first: Presentation) -> (r: bool)
    ensures
        r == redundant_under(rule, first),
{
    match (rule, first) {
        (SingletonRule::TextToBare, Presentation::Text) => true,
        (SingletonRule::EmojiToBare, Presentation::Emoji) => true,
        _ => false,
    }
}

pub(crate) fn policy_decision(base: char, sels: &Vec<Presentation>, is_keycap: bool, policy: &Policy) -> (r:
    BaseDecision)
    ensures
        r@ == policy_outcome(base, sels@, is_keycap, *policy),
        match r {
            BaseDecision::Deterministic(canonical, c) => policy_outcome(base, sels@, is_keycap, *policy)
                == (BaseOutcome::Deterministic { canonical, counts: c@ }),
            BaseDecision::NeedsDecision(default, c) => policy_outcome(base, sels@, is_keycap, *policy)
                == (BaseOutcome::NeedsDecision { default, counts: c@ }),
        },
{
    let rule = policy.singleton_rule(base, is_keycap);
    let n = sels.len();
    if n >= 2 {
        if is_redundant_under(rule, sels[0]) {
            BaseDecision::Deterministic(None, NonCanonicality::new(n - 1, 0, 1, 0, 0))
        } else {
            BaseDecision::Deterministic(Some(sels[0]), NonCanonicality::unsanctioned(n - 1))
        }
    } else if n == 1 {
        if is_redundant_under(rule, sels[0]) {
            BaseDecision::Deterministic(None, NonCanonicality::new(0, 0, 1, 0, 0))
        } else {
            BaseDecision::Deterministic(Some(sels[0]), NonCanonicality::new(0, 0, 0, 0, 0))
        }
    } else {
        match rule {
            SingletonRule::BareToEmoji => BaseDecision::NeedsDecision(
                Presentation::Emoji,
                NonCanonicality::new(0, 0, 0, 0, 1),
            ),
            SingletonRule::BareToText => BaseDecision::NeedsDecision(
                Presentation::Text,
                NonCanonicality::new(0, 0, 0, 0, 1),
            ),
            _ => BaseDecision::Deterministic(None, NonCanonicality::new(0, 0, 0, 0, 0)),
        }
    }
}

fn base_decision(
    base: char,
    sels: &Vec<Presentation>,
    first: Option<&EmojiModification>,
    policy: &Policy,
) -> (r: BaseDecision)
    ensures
        r@ == base_outcome(
            base,
            sels@,
            match first {
                Some(m) => Some(m@),
                None => None,
            },
            *policy,
        ),
{
    if !unicode::has_variation_sequence(base) {
        return BaseDecision::Deterministic(None, NonCanonicality::unsanctioned(sels.len()));
    }
    let n = sels.len();
    match first {
        Some(EmojiModification::EmojiModifier { .. }) => {
            if n > 0 && sels[0] == Presentation::Text {
                BaseDecision::Deterministic(
                    Some(Presentation::Text),
                    NonCanonicality::unsanctioned(n - 1),
                )
            } else if n == 0 {
                BaseDecision::Deterministic(None, NonCanonicality::new(0, 0, 0, 0, 0))
            } else {
                BaseDecision::Deterministic(None, NonCanonicality::new(n - 1, 1, 0, 0, 0))
            }
        },
        Some(EmojiModification::TagModifier(_)) => {
            if unicode::is_emoji_default(base) {
                proof {
                    assert(sels@.take(0) =~= Seq::<Presentation>::empty());
                    if n == 0 {
                        assert(sels@ =~= Seq::<Presentation>::empty());
                    }
                }
                if n == 0 {
                    BaseDecision::Deterministic(None, NonCanonicality::new(0, 0, 0, 0, 0))
                } else {
                    BaseDecision::Deterministic(None, NonCanonicality::unsanctioned(n))
                }
            } else {
                let ghost c = seq![Presentation::Emoji];
                if n == 1 && sels[0] == Presentation::Emoji {
                    proof {
                        assert(sels@ =~= c);
                    }
                    BaseDecision::Deterministic(
                        Some(Presentation::Emoji),
                        NonCanonicality::new(0, 0, 0, 0, 0),
                    )
                } else if n >= 1 && sels[0] == Presentation::Emoji {
                    proof {
                        assert(sels@.take(1) =~= c);
                        assert(sels@ != c);
                    }
                    BaseDecision::Deterministic(
                        Some(Presentation::Emoji),
                        NonCanonicality::unsanctioned(n - 1),
                    )
                } else {
                    proof {
                        if n >= 1 {
                            assert(sels@.take(1)[0] != c[0]);
                        }
                        assert(sels@ != c);
                    }
                    BaseDecision::Deterministic(
                        Some(Presentation::Emoji),
                        NonCanonicality::new(n, 0, 0, 1, 0),
                    )
                }
            }
        },
        Some(EmojiModification::EnclosingKeycap { .. }) => policy_decision(base, sels, true, policy),
        None => policy_decision(base, sels, false, policy),
    }
}

pub open spec fn outcome_counts(o: BaseOutcome) -> Counts {
    match o {
        BaseOutcome::Deterministic { counts, .. } => counts,
        BaseOutcome::NeedsDecision { counts, .. } => counts,
    }
}

proof fn lemma_tag_counts(runs: Seq<TagRunModel>)
    ensures
        tag_selector_count(runs) + tag_chars_text(runs).len() == tag_runs_text(runs).len(),
    decreases runs.len(),
{
    if runs.len() > 0 {
        lemma_tag_counts(runs.drop_first());
    }
}

pub(crate) proof fn lemma_modifications_counts(ms: Seq<ModificationModel>)
    ensures
        modifications_selector_count(ms) + stripped_modifications_text(ms).len()
            == modifications_text(ms).len(),
    decreases ms.len(),
{
    if ms.len() > 0 {
        lemma_modifications_counts(ms.drop_first());
        match ms[0] {
            ModificationModel::TagModifier { runs } => lemma_tag_counts(runs),
            _ => {},
        }
    }
}

proof fn lemma_base_outcome_total(
    base: char,
    sels: Seq<Presentation>,
    first: Option<ModificationModel>,
    policy: Policy,
)
    ensures
        total(outcome_counts(base_outcome(base, sels, first, policy))) <= 1 + sels.len(),
{
}

proof fn lemma_component_total(e: EmojiModel, policy: Policy)
    ensures
        total(component_analysis(e, policy).counts) <= emoji_text(e).len(),
{
    lemma_modifications_counts(e.modifiers);
    match e.stem {
        StemModel::SingletonBase { base, selectors } => {
            lemma_base_outcome_total(base, selectors, first_modification(e.modifiers), policy);
        },
        _ => {},
    }
}

fn analyze_component(e: &EmojiLike, policy: &Policy) -> (r: ReplacementAnalysis)
    requires
        emoji_text(e@).len() <= usize::MAX,
    ensures
        r@ == component_analysis(e@, *policy),
{
    let ghost mv = crate::scanner::modifications_view(e.modifiers@);
    proof {
        lemma_modifications_counts(mv);
        lemma_component_total(e@, *policy);
    }
    match &e.stem {
        EmojiStem::SingletonBase { base, presentation_selectors_after_base } => {
            let cleanup = NonCanonicality::unsanctioned(modifications_selector_total(&e.modifiers));
            let first = if e.modifiers.len() > 0 {
                Some(&e.modifiers[0])
            } else {
                None
            };
            proof {
                if e.modifiers.len() > 0 {
                    assert(mv[0] == e.modifiers@[0]@);
                }
                lemma_base_outcome_total(
                    *base,
                    presentation_selectors_after_base@,
                    first_modification(mv),
                    *policy,
                );
            }
            match base_decision(*base, presentation_selectors_after_base, first, policy) {
                BaseDecision::Deterministic(canonical, c) => {
                    let text = render_singleton_text(*base, canonical, &e.modifiers);
                    ReplacementAnalysis::fixed(c.plus(cleanup), text)
                },
                BaseDecision::NeedsDecision(default, c) => {
                    let text = render_singleton_text(*base, Some(Presentation::Text), &e.modifiers);
                    let emoji = render_singleton_text(*base, Some(Presentation::Emoji), &e.modifiers);
                    let mut elements = Vec::new();
                    elements.push(ReplacementElement::Choice { default, text, emoji });
                    let r = ReplacementAnalysis { non_canonicality: c.plus(cleanup), elements };
                    proof {
                        assert(elements_view(r.elements@) =~= component_analysis(
                            e@,
                            *policy,
                        ).elements);
                    }
                    r
                },
            }
        },
        EmojiStem::Flag {
            first_ri,
            presentation_selectors_after_first_ri,
            second_ri,
            presentation_selectors_after_second_ri,
        } => {
            let n = presentation_selectors_after_first_ri.len()
                + presentation_selectors_after_second_ri.len() + modifications_selector_total(
                &e.modifiers,
            );
            let text = render_flag_text(*first_ri, *second_ri, &e.modifiers);
            ReplacementAnalysis::fixed(NonCanonicality::unsanctioned(n), text)
        },
    }
}

// --- Analysing sequences ---

pub(crate) proof fn lemma_concat_assoc(a: AnalysisModel, b: AnalysisModel, c: AnalysisModel)
    ensures
        concat_analysis(concat_analysis(a, b), c) == concat_analysis(a, concat_analysis(b, c)),
{
    assert(a.elements + b.elements + c.elements =~= a.elements + (b.elements + c.elements));
}

pub(crate) proof fn lemma_concat_empty(a: AnalysisModel)
    ensures
        concat_analysis(empty_analysis(), a) == a,
        concat_analysis(a, empty_analysis()) == a,
{
    assert(Seq::<ElementModel>::empty() + a.elements =~= a.elements);
    assert(a.elements + Seq::<ElementModel>::empty() =~= a.elements);
}

pub(crate) proof fn lemma_links_total(links: Seq<Seq<Presentation>>)
    ensures
        total(links_analysis(links).counts) <= links_text(links).len(),
    decreases links.len(),
{
    if links.len() > 0 {
        lemma_links_total(links.drop_last());
    }
}

pub(crate) proof fn lemma_links_prefix(links: Seq<Seq<Presentation>>, k: int)
    requires
        0 <= k <= links.len(),
    ensures
        links_text(links.take(k)).len() <= links_text(links).len(),
    decreases links.len() - k,
{
    if k < links.len() {
        assert(links.drop_last().take(k) =~= links.take(k));
        lemma_links_prefix(links.drop_last(), k);
    } else {
        assert(links.take(k) =~= links);
    }
}

proof fn lemma_joined_total(joined: Seq<JoinedModel>, policy: Policy)
    ensures
        total(joined_analysis(joined, policy).counts) <= joined_text(joined).len(),
    decreases joined.len(),
{
    if joined.len() > 0 {
        lemma_joined_total(joined.drop_last(), policy);
        lemma_component_total(joined.last().emoji, policy);
    }
}

pub(crate) proof fn lemma_joined_prefix(joined: Seq<JoinedModel>, k: int)
    requires
        0 <= k <= joined.len(),
    ensures
        joined_text(joined.take(k)).len() <= joined_text(joined).len(),
    decreases joined.len() - k,
{
    if k < joined.len() {
        assert(joined.drop_last().take(k) =~= joined.take(k));
        lemma_joined_prefix(joined.drop_last(), k);
    } else {
        assert(joined.take(k) =~= joined);
    }
}

fn zwj_text() -> (r: String)
    ensures
        r@ == seq!['\u{200D}'],
{
    let mut out = String::new();
    push_char(&mut out, unicode::ZWJ);
    proof {
        assert(out@ =~= seq!['\u{200D}']);
    }
    out
}

pub(crate) fn empty_replacement() -> (r: ReplacementAnalysis)
    ensures
        r@ == empty_analysis(),
{
    let r = ReplacementAnalysis { non_canonicality: NonCanonicality::new(0, 0, 0, 0, 0), elements: Vec::new() };
    proof {
        assert(elements_view(r.elements@) =~= Seq::<ElementModel>::empty());
    }
    r
}

pub(crate) fn analyze_link(link: &ZwjLink) -> (r: ReplacementAnalysis)
    ensures
        r@ == link_analysis(link@),
{
    ReplacementAnalysis::fixed(
        NonCanonicality::unsanctioned(link.presentation_selectors_after_link.len()),
        zwj_text(),
    )
}

/// Appends the analyses of `links`, in order, to `acc`.
pub(crate) fn append_links(acc: &mut ReplacementAnalysis, links: &Vec<ZwjLink>)
    requires
        total(old(acc)@.counts) + links_text(crate::scanner::links_view(links@)).len()
            <= usize::MAX,
    ensures
        final(acc)@ == concat_analysis(
            old(acc)@,
            links_analysis(crate::scanner::links_view(links@)),
        ),
{
    let ghost lv = crate::scanner::links_view(links@);
    let ghost start = acc@;
    let mut k: usize = 0;
    proof {
        assert(lv.take(0) =~= Seq::<Seq<Presentation>>::empty());
        lemma_concat_empty(start);
    }
    while k < links.len()
        invariant
            lv == crate::scanner::links_view(links@),
            k <= links.len(),
            total(start.counts) + links_text(lv).len() <= usize::MAX,
            acc@ == concat_analysis(start, links_analysis(lv.take(k as int))),
        decreases links.len() - k,
    {
        let next = analyze_link(&links[k]);
        proof {
            let longer = lv.take(k as int + 1);
            assert(longer.drop_last() =~= lv.take(k as int));
            assert(longer.last() == lv[k as int]);
            lemma_links_total(longer);
            lemma_links_prefix(lv, k as int + 1);
            lemma_concat_assoc(start, links_analysis(lv.take(k as int)), next@);
        }
        acc.append(next);
        k = k + 1;
    }
    proof {
        assert(lv.take(k as int) =~= lv);
    }
}

/// Appends the analyses of `joined` (each link, then its component), in
/// order, to `acc`.
fn append_joined(acc: &mut ReplacementAnalysis, joined: &Vec<ZwjJoinedEmoji>, policy: &Policy)
    requires
        total(old(acc)@.counts) + joined_text(crate::scanner::joined_view(joined@)).len()
            <= usize::MAX,
    ensures
        final(acc)@ == concat_analysis(
            old(acc)@,
            joined_analysis(crate::scanner::joined_view(joined@), *policy),
        ),
{
    let ghost jv = crate::scanner::joined_view(joined@);
    let ghost start = acc@;
    let mut k: usize = 0;
    proof {
        assert(jv.take(0) =~= Seq::<JoinedModel>::empty());
        lemma_concat_empty(start);
    }
    while k < joined.len()
        invariant
            jv == crate::scanner::joined_view(joined@),
            k <= joined.len(),
            total(start.counts) + joined_text(jv).len() <= usize::MAX,
            acc@ == concat_analysis(start, joined_analysis(jv.take(k as int), *policy)),
        decreases joined.len() - k,
    {
        let ghost longer = jv.take(k as int + 1);
        let ghost shorter = jv.take(k as int);
        proof {
            assert(longer.drop_last() =~= shorter);
            assert(longer.last() == jv[k as int]);
            lemma_joined_total(longer, *policy);
            lemma_joined_total(shorter, *policy);
            lemma_joined_prefix(jv, k as int + 1);
            lemma_component_total(jv[k as int].emoji, *policy);
        }
        let link = analyze_link(&joined[k].link);
        proof {
            lemma_concat_assoc(start, joined_analysis(shorter, *policy), link@);
        }
        acc.append(link);
        let component = analyze_component(&joined[k].emoji, policy);
        proof {
            lemma_concat_assoc(
                start,
                concat_analysis(joined_analysis(shorter, *policy), link@),
                component@,
            );
        }
        acc.append(component);
        k = k + 1;
    }
    proof {
        assert(jv.take(k as int) =~= jv);
    }
}

fn analyze_sequence(sequence: &EmojiSequence, policy: &Policy) -> (r: ReplacementAnalysis)
    requires
        sequence_text(sequence@).len() <= usize::MAX,
    ensures
        r@ == sequence_analysis(sequence@, *policy),
{
    match sequence {
        EmojiSequence::LinksOnly(links) => {
            let mut acc = empty_replacement();
            append_links(&mut acc, links);
            proof {
                lemma_concat_empty(links_analysis(crate::scanner::links_view(links@)));
            }
            acc
        },
        EmojiSequence::EmojiHeaded { first, joined, trailing_links } => {
            proof {
                lemma_component_total(first@, *policy);
                lemma_joined_total(crate::scanner::joined_view(joined@), *policy);
            }
            let mut acc = analyze_component(first, policy);
            append_joined(&mut acc, joined, policy);
            append_links(&mut acc, trailing_links);
            acc
        },
    }
}

/// Whether the structure of `kind` has a text short enough to count in a
/// `usize`.
pub open spec fn kind_fits(kind: KindModel) -> bool {
    kind matches KindModel::Sequence { sequence } ==> sequence_text(sequence).len() <= usize::MAX
}

// --- Findings ---

/// A single non-canonical scanned item with its valid replacement decisions.
#[derive(Debug, PartialEq, Eq)]
pub struct Finding<'a> {
    /// Byte range in the original input.
    pub span: Range<usize>,
    /// Original raw source slice for the item.
    pub raw: &'a str,
    analysis: ReplacementAnalysis,
}

impl<'a> Clone for Finding<'a> {
    fn clone(&self) -> (r: Self)
        ensures
            r.model() == self.model(),
            r.raw_text() == self.raw_text(),
            r.byte_span() == self.byte_span(),
    {
        Finding {
            span: self.span.start..self.span.end,
            raw: self.raw,
            analysis: self.analysis.clone(),
        }
    }
}

impl<'a> Finding<'a> {
    /// The counts and replacement pieces of this finding.
    pub closed spec fn model(self) -> AnalysisModel {
        self.analysis@
    }

    /// The raw source slice of the analysed item.
    pub closed spec fn raw_text(self) -> &'a str {
        self.raw
    }

    /// The byte range of the analysed item.
    pub closed spec fn byte_span(self) -> Range<usize> {
        self.span
    }

    /// Why the analysed item is non-canonical.
    pub fn non_canonicality(&self) -> (r: NonCanonicality)
        ensures
            r@ == self.model().counts,
    {
        self.analysis.non_canonicality
    }

    /// The decision vector formatting applies by default: one presentation
    /// per ambiguous selector slot, in source order.
    pub fn default_decisions(&self) -> (r: Vec<Presentation>)
        ensures
            r@ == default_decisions(self.model().elements),
    {
        self.analysis.default_decision_vec()
    }

    /// The replacement selected by this finding's default decisions.
    pub fn default_canonical_replacement(&self) -> (r: String)
        ensures
            r@ == render_default(self.model().elements),
    {
        self.analysis.default_text()
    }

    /// The whole-item replacement for a decision vector with one decision
    /// per choice, in order; `None` when the vector has the wrong length.
    pub fn canonical_replacement_with_decisions(&self, decisions: &[Presentation]) -> (r: Option<
        String,
    >)
        ensures
            decisions@.len() == choice_count(self.model().elements) ==> (r matches Some(text)
                && text@ == render_with(self.model().elements, decisions@)),
            decisions@.len() != choice_count(self.model().elements) ==> r is None,
    {
        self.analysis.text_with(decisions)
    }
}

proof fn lemma_choice_count_prefix(elems: Seq<ElementModel>, k: int)
    requires
        0 <= k <= elems.len(),
    ensures
        choice_count(elems.take(k)) <= choice_count(elems),
    decreases elems.len() - k,
{
    if k < elems.len() {
        assert(elems.drop_last().take(k) =~= elems.take(k));
        lemma_choice_count_prefix(elems.drop_last(), k);
    } else {
        assert(elems.take(k) =~= elems);
    }
}

/// Analyse a scanned item under `policy`: `None` when the item is already
/// canonical, otherwise a finding for the item's raw text and span with the
/// analysis of [`item_analysis`].
pub fn analyze_scan_item<'a>(item: &ScanItem<'a>, policy: &Policy) -> (r: Option<Finding<'a>>)
    requires
        kind_fits(item.kind@),
    ensures
        match item_analysis(item.kind@, *policy) {
            None => r is None,
            Some(a) => (r matches Some(f) && f.raw_text() == item.raw && f.byte_span() == item.span
                && f.model() == a),
        },
{
    match &item.kind {
        ScanKind::Passthrough => None,
        ScanKind::UnsanctionedPresentationSelectors(selectors) => {
            let analysis = ReplacementAnalysis::fixed(
                NonCanonicality::unsanctioned(selectors.len()),
                String::new(),
            );
            Some(Finding { span: item.span.start..item.span.end, raw: item.raw, analysis })
        },
        ScanKind::EmojiSequence(sequence) => {
            let analysis = analyze_sequence(sequence, policy);
            if analysis.non_canonicality.is_empty() {
                None
            } else {
                Some(Finding { span: item.span.start..item.span.end, raw: item.raw, analysis })
            }
        },
    }
}

// --- Laws ---

pub(crate) proof fn lemma_render_default_concat(a: Seq<ElementModel>, b: Seq<ElementModel>)
    ensures
        render_default(a + b) == render_default(a) + render_default(b),
        choice_count(a + b) == choice_count(a) + choice_count(b),
        default_decisions(a + b) == default_decisions(a) + default_decisions(b),
    decreases b.len(),
{
    if b.len() == 0 {
        assert(a + b =~= a);
        assert(render_default(a) + render_default(b) =~= render_default(a));
        assert(default_decisions(a) + default_decisions(b) =~= default_decisions(a));
    } else {
        lemma_render_default_concat(a, b.drop_last());
        assert((a + b).drop_last() =~= a + b.drop_last());
        assert((a + b).last() == b.last());
        assert(render_default(a + b) =~= render_default(a) + render_default(b));
        assert(default_decisions(a + b) =~= default_decisions(a) + default_decisions(b));
    }
}

pub(crate) proof fn lemma_default_decisions_len(elems: Seq<ElementModel>)
    ensures
        default_decisions(elems).len() == choice_count(elems),
    decreases elems.len(),
{
    if elems.len() > 0 {
        lemma_default_decisions_len(elems.drop_last());
    }
}

/// The replacement under the default decision vector is the default
/// replacement.
pub proof fn lemma_default_replacement_is_default_decisions(elems: Seq<ElementModel>)
    ensures
        default_decisions(elems).len() == choice_count(elems),
        render_with(elems, default_decisions(elems)) == render_default(elems),
    decreases elems.len(),
{
    lemma_default_decisions_len(elems);
    if elems.len() > 0 {
        lemma_default_replacement_is_default_decisions(elems.drop_last());
        let dd = default_decisions(elems);
        match elems.last() {
            ElementModel::Choice { default, .. } => {
                assert(dd.drop_last() =~= default_decisions(elems.drop_last()));
                assert(dd.last() == default);
            },
            ElementModel::Fixed { .. } => {
                assert(dd =~= default_decisions(elems.drop_last()));
            },
        }
    }
}

/// How the default replacement's length differs from the text's: each
/// removed selector shortens it by one, each supplied one lengthens it.
pub open spec fn length_accounted(a: AnalysisModel, text_len: nat) -> bool {
    render_default(a.elements).len() + a.counts.unsanctioned + a.counts.defective
        + a.counts.redundant == text_len + a.counts.missing + a.counts.resolve
}

/// The decisions left to the caller are exactly the bases to resolve.
pub open spec fn choices_accounted(a: AnalysisModel) -> bool {
    choice_count(a.elements) == a.counts.resolve
}

proof fn lemma_concat_accounted(a: AnalysisModel, la: nat, b: AnalysisModel, lb: nat)
    requires
        length_accounted(a, la),
        length_accounted(b, lb),
        choices_accounted(a),
        choices_accounted(b),
    ensures
        length_accounted(concat_analysis(a, b), la + lb),
        choices_accounted(concat_analysis(a, b)),
{
    lemma_render_default_concat(a.elements, b.elements);
}

pub(crate) proof fn lemma_fixed_accounted(c: Counts, text: Seq<char>)
    ensures
        render_default(fixed_analysis(c, text).elements) == text,
        choice_count(fixed_analysis(c, text).elements) == 0,
{
    let e = fixed_analysis(c, text).elements;
    assert(e.drop_last() =~= Seq::<ElementModel>::empty());
    assert(render_default(e.drop_last()) =~= Seq::<char>::empty());
    assert(choice_count(e.drop_last()) == 0);
    assert(render_default(e) =~= text);
}

proof fn lemma_base_outcome_delta(
    base: char,
    sels: Seq<Presentation>,
    first: Option<ModificationModel>,
    policy: Policy,
)
    ensures
        match base_outcome(base, sels, first, policy) {
            BaseOutcome::Deterministic { canonical, counts } => presentation_text(canonical).len()
                + counts.unsanctioned + counts.defective + counts.redundant == sels.len()
                + counts.missing + counts.resolve && counts.resolve == 0,
            BaseOutcome::NeedsDecision { default, counts } => 1 + counts.unsanctioned
                + counts.defective + counts.redundant == sels.len() + counts.missing
                + counts.resolve && counts.resolve == 1,
        },
{
}

proof fn lemma_component_accounted(e: EmojiModel, policy: Policy)
    ensures
        length_accounted(component_analysis(e, policy), emoji_text(e).len()),
        choices_accounted(component_analysis(e, policy)),
{
    let ms = e.modifiers;
    lemma_modifications_counts(ms);
    let a = component_analysis(e, policy);
    match e.stem {
        StemModel::SingletonBase { base, selectors } => {
            lemma_base_outcome_delta(base, selectors, first_modification(ms), policy);
            match base_outcome(base, selectors, first_modification(ms), policy) {
                BaseOutcome::Deterministic { canonical, counts } => {
                    lemma_fixed_accounted(a.counts, render_singleton(base, canonical, ms));
                },
                BaseOutcome::NeedsDecision { default, counts } => {
                    assert(a.elements.drop_last() =~= Seq::<ElementModel>::empty());
                    assert(render_default(a.elements.drop_last()) =~= Seq::<char>::empty());
                    assert(choice_count(a.elements.drop_last()) == 0);
                    assert(render_default(a.elements) =~= render_singleton(base, Some(default), ms));
                },
            }
        },
        StemModel::Flag { first_ri, first_selectors, second_ri, second_selectors } => {
            lemma_fixed_accounted(a.counts, render_flag(first_ri, second_ri, ms));
        },
    }
}

proof fn lemma_links_accounted(links: Seq<Seq<Presentation>>)
    ensures
        length_accounted(links_analysis(links), links_text(links).len()),
        choices_accounted(links_analysis(links)),
    decreases links.len(),
{
    if links.len() == 0 {
        assert(render_default(Seq::<ElementModel>::empty()) =~= Seq::<char>::empty());
    } else {
        lemma_links_accounted(links.drop_last());
        let l = links.last();
        lemma_fixed_accounted(unsanctioned(l.len()), seq!['\u{200D}']);
        lemma_concat_accounted(
            links_analysis(links.drop_last()),
            links_text(links.drop_last()).len(),
            link_analysis(l),
            link_text(l).len(),
        );
    }
}

proof fn lemma_joined_accounted(joined: Seq<JoinedModel>, policy: Policy)
    ensures
        length_accounted(joined_analysis(joined, policy), joined_text(joined).len()),
        choices_accounted(joined_analysis(joined, policy)),
    decreases joined.len(),
{
    if joined.len() == 0 {
        assert(render_default(Seq::<ElementModel>::empty()) =~= Seq::<char>::empty());
    } else {
        lemma_joined_accounted(joined.drop_last(), policy);
        let j = joined.last();
        lemma_fixed_accounted(unsanctioned(j.link.len()), seq!['\u{200D}']);
        lemma_component_accounted(j.emoji, policy);
        lemma_concat_accounted(
            joined_analysis(joined.drop_last(), policy),
            joined_text(joined.drop_last()).len(),
            link_analysis(j.link),
            link_text(j.link).len(),
        );
        lemma_concat_accounted(
            concat_analysis(joined_analysis(joined.drop_last(), policy), link_analysis(j.link)),
            joined_text(joined.drop_last()).len() + link_text(j.link).len(),
            component_analysis(j.emoji, policy),
            emoji_text(j.emoji).len(),
        );
    }
}

proof fn lemma_sequence_accounted(sq: SequenceModel, policy: Policy)
    ensures
        length_accounted(sequence_analysis(sq, policy), sequence_text(sq).len()),
        choices_accounted(sequence_analysis(sq, policy)),
{
    match sq {
        SequenceModel::LinksOnly { links } => lemma_links_accounted(links),
        SequenceModel::EmojiHeaded { first, joined, trailing } => {
            lemma_component_accounted(first, policy);
            lemma_joined_accounted(joined, policy);
            lemma_links_accounted(trailing);
            lemma_concat_accounted(
                component_analysis(first, policy),
                emoji_text(first).len(),
                joined_analysis(joined, policy),
                joined_text(joined).len(),
            );
            lemma_concat_accounted(
                concat_analysis(component_analysis(first, policy), joined_analysis(joined, policy)),
                emoji_text(first).len() + joined_text(joined).len(),
                links_analysis(trailing),
                links_text(trailing).len(),
            );
        },
    }
}

/// For an item of a scan: a finding counts something; its default decision
/// vector has one decision per base to resolve; and its default replacement
/// is as long as the item's text, less one per removed selector
/// (unsanctioned, defective, redundant), plus one per supplied selector
/// (missing required, resolved base).
pub proof fn lemma_finding_accounting(s: Seq<char>, m: ItemModel, policy: Policy)
    requires
        item_wf(s, m),
        item_analysis(m.kind, policy) is Some,
    ensures
        ({
            let a = item_analysis(m.kind, policy)->0;
            &&& !is_zero(a.counts)
            &&& default_decisions(a.elements).len() == a.counts.resolve
            &&& render_default(a.elements).len() + a.counts.unsanctioned + a.counts.defective
                + a.counts.redundant == (m.end - m.start) + a.counts.missing + a.counts.resolve
        }),
{
    let a = item_analysis(m.kind, policy)->0;
    lemma_default_decisions_len(a.elements);
    match m.kind {
        KindModel::Selectors { selectors } => {
            assert(selector_chars(selectors).len() == selectors.len());
            lemma_fixed_accounted(a.counts, Seq::empty());
        },
        KindModel::Sequence { sequence } => {
            lemma_sequence_accounted(sequence, policy);
        },
        KindModel::Passthrough => {},
    }
}

// --- Replacements change nothing but selectors ---

proof fn lemma_render_with_concat(a: Seq<ElementModel>, b: Seq<ElementModel>, ds: Seq<Presentation>)
    requires
        ds.len() == choice_count(a) + choice_count(b),
    ensures
        render_with(a + b, ds) == render_with(a, ds.take(choice_count(a) as int)) + render_with(
            b,
            ds.skip(choice_count(a) as int),
        ),
    decreases b.len(),
{
    let ca = choice_count(a) as int;
    if b.len() == 0 {
        assert(a + b =~= a);
        assert(ds.take(ca) =~= ds);
        lemma_render_with_decisions_irrelevant_fixed(a, ds, ds.take(ca));
        assert(render_with(a, ds.take(ca)) + render_with(b, ds.skip(ca)) =~= render_with(
            a,
            ds.take(ca),
        ));
    } else {
        assert((a + b).drop_last() =~= a + b.drop_last());
        assert((a + b).last() == b.last());
        match b.last() {
            ElementModel::Fixed { text } => {
                lemma_render_with_concat(a, b.drop_last(), ds);
                assert(render_with(a + b, ds) =~= render_with(a, ds.take(ca)) + render_with(
                    b,
                    ds.skip(ca),
                ));
            },
            ElementModel::Choice { .. } => {
                lemma_render_with_concat(a, b.drop_last(), ds.drop_last());
                assert(ds.drop_last().take(ca) =~= ds.take(ca));
                assert(ds.drop_last().skip(ca) =~= ds.skip(ca).drop_last());
                assert(ds.skip(ca).last() == ds.last());
                assert(render_with(a + b, ds) =~= render_with(a, ds.take(ca)) + render_with(
                    b,
                    ds.skip(ca),
                ));
            },
        }
    }
}

proof fn lemma_render_with_decisions_irrelevant_fixed(
    a: Seq<ElementModel>,
    ds: Seq<Presentation>,
    es: Seq<Presentation>,
)
    requires
        ds == es,
    ensures
        render_with(a, ds) == render_with(a, es),
{
}

/// Whether every valid decision vector makes the pieces `elems` spell `t`
/// once selectors are removed from both.
pub open spec fn strips_to(elems: Seq<ElementModel>, t: Seq<char>) -> bool {
    forall|ds: Seq<Presentation>|
        ds.len() == choice_count(elems) ==> #[trigger] strip_selectors(render_with(elems, ds))
            == strip_selectors(t)
}

pub(crate) proof fn lemma_strips_to_concat(a: AnalysisModel, ta: Seq<char>, b: AnalysisModel, tb: Seq<char>)
    requires
        strips_to(a.elements, ta),
        strips_to(b.elements, tb),
    ensures
        strips_to(concat_analysis(a, b).elements, ta + tb),
{
    lemma_render_default_concat(a.elements, b.elements);
    let ca = choice_count(a.elements) as int;
    assert forall|ds: Seq<Presentation>|
        ds.len() == choice_count(concat_analysis(a, b).elements) implies #[trigger] strip_selectors(
        render_with(concat_analysis(a, b).elements, ds),
    ) == strip_selectors(ta + tb) by {
        lemma_render_with_concat(a.elements, b.elements, ds);
        let da = ds.take(ca);
        let db = ds.skip(ca);
        assert(strip_selectors(render_with(a.elements, da)) == strip_selectors(ta));
        assert(strip_selectors(render_with(b.elements, db)) == strip_selectors(tb));
        lemma_strip_concat(render_with(a.elements, da), render_with(b.elements, db));
        lemma_strip_concat(ta, tb);
    }
}

proof fn lemma_strip_single(c: char)
    ensures
        strip_selectors(seq![c]) == if is_selector_char(c) {
            Seq::<char>::empty()
        } else {
            seq![c]
        },
{
    assert(seq![c].drop_last() =~= Seq::<char>::empty());
    assert(strip_selectors(Seq::<char>::empty()).push(c) =~= seq![c]);
}

proof fn lemma_strip_tag_runs(runs: Seq<TagRunModel>)
    ensures
        strip_selectors(tag_runs_text(runs)) == strip_selectors(tag_chars_text(runs)),
    decreases runs.len(),
{
    if runs.len() > 0 {
        lemma_strip_tag_runs(runs.drop_first());
        lemma_strip_concat(tag_run_text(runs[0]), tag_runs_text(runs.drop_first()));
        lemma_strip_concat(runs[0].tag, selector_chars(runs[0].selectors));
        lemma_strip_selector_chars(runs[0].selectors);
        lemma_strip_concat(runs[0].tag, tag_chars_text(runs.drop_first()));
        assert(runs[0].tag + Seq::<char>::empty() =~= runs[0].tag);
        assert(strip_selectors(runs[0].tag) + Seq::<char>::empty() =~= strip_selectors(
            runs[0].tag,
        ));
    }
}

pub(crate) proof fn lemma_strip_modifications(ms: Seq<ModificationModel>)
    ensures
        strip_selectors(modifications_text(ms)) == strip_selectors(stripped_modifications_text(ms)),
    decreases ms.len(),
{
    if ms.len() > 0 {
        lemma_strip_modifications(ms.drop_first());
        lemma_strip_concat(modification_text(ms[0]), modifications_text(ms.drop_first()));
        lemma_strip_concat(
            stripped_modification_text(ms[0]),
            stripped_modifications_text(ms.drop_first()),
        );
        match ms[0] {
            ModificationModel::EmojiModifier { modifier, selectors } => {
                lemma_strip_concat(seq![modifier], selector_chars(selectors));
                lemma_strip_selector_chars(selectors);
                assert(strip_selectors(seq![modifier]) + Seq::<char>::empty() =~= strip_selectors(
                    seq![modifier],
                ));
            },
            ModificationModel::EnclosingKeycap { selectors } => {
                lemma_strip_concat(seq!['\u{20E3}'], selector_chars(selectors));
                lemma_strip_selector_chars(selectors);
                assert(strip_selectors(seq!['\u{20E3}']) + Seq::<char>::empty()
                    =~= strip_selectors(seq!['\u{20E3}']));
            },
            ModificationModel::TagModifier { runs } => {
                lemma_strip_tag_runs(runs);
            },
        }
    }
}

pub(crate) proof fn lemma_strip_singleton(
    base: char,
    p: Option<Presentation>,
    sels: Seq<Presentation>,
    ms: Seq<ModificationModel>,
)
    ensures
        strip_selectors(render_singleton(base, p, ms)) == strip_selectors(
            seq![base] + selector_chars(sels) + modifications_text(ms),
        ),
{
    lemma_strip_modifications(ms);
    lemma_strip_concat(seq![base] + presentation_text(p), stripped_modifications_text(ms));
    lemma_strip_concat(seq![base], presentation_text(p));
    lemma_strip_concat(seq![base] + selector_chars(sels), modifications_text(ms));
    lemma_strip_concat(seq![base], selector_chars(sels));
    lemma_strip_selector_chars(sels);
    match p {
        Some(q) => {
            lemma_strip_single(selector_char(q));
        },
        None => {
            assert(strip_selectors(presentation_text(p)) =~= Seq::<char>::empty());
        },
    }
    assert(strip_selectors(seq![base]) + Seq::<char>::empty() =~= strip_selectors(seq![base]));
}

pub(crate) proof fn lemma_fixed_strips_to(c: Counts, text: Seq<char>, t: Seq<char>)
    requires
        strip_selectors(text) == strip_selectors(t),
    ensures
        strips_to(fixed_analysis(c, text).elements, t),
{
    let e = fixed_analysis(c, text).elements;
    lemma_fixed_accounted(c, text);
    assert forall|ds: Seq<Presentation>| ds.len() == choice_count(e) implies #[trigger] strip_selectors(
        render_with(e, ds),
    ) == strip_selectors(t) by {
        assert(e.drop_last() =~= Seq::<ElementModel>::empty());
        assert(render_with(e.drop_last(), ds) =~= Seq::<char>::empty());
        assert(render_with(e, ds) =~= text);
    }
}

pub(crate) proof fn lemma_component_strips_to(e: EmojiModel, policy: Policy)
    ensures
        strips_to(component_analysis(e, policy).elements, emoji_text(e)),
{
    let ms = e.modifiers;
    let a = component_analysis(e, policy);
    match e.stem {
        StemModel::SingletonBase { base, selectors } => {
            assert(emoji_text(e) =~= seq![base] + selector_chars(selectors) + modifications_text(ms));
            match base_outcome(base, selectors, first_modification(ms), policy) {
                BaseOutcome::Deterministic { canonical, counts } => {
                    lemma_strip_singleton(base, canonical, selectors, ms);
                    lemma_fixed_strips_to(a.counts, render_singleton(base, canonical, ms), emoji_text(e));
                },
                BaseOutcome::NeedsDecision { default, counts } => {
                    lemma_strip_singleton(base, Some(Presentation::Text), selectors, ms);
                    lemma_strip_singleton(base, Some(Presentation::Emoji), selectors, ms);
                    assert forall|ds: Seq<Presentation>|
                        ds.len() == choice_count(a.elements) implies #[trigger] strip_selectors(
                        render_with(a.elements, ds),
                    ) == strip_selectors(emoji_text(e)) by {
                        assert(a.elements.drop_last() =~= Seq::<ElementModel>::empty());
                        assert(choice_count(a.elements.drop_last()) == 0);
                        assert(render_with(a.elements.drop_last(), ds.drop_last()) =~= Seq::<char>::empty());
                        assert(render_with(a.elements, ds) =~= choice_text(a.elements.last(), ds.last()));
                    }
                },
            }
        },
        StemModel::Flag { first_ri, first_selectors, second_ri, second_selectors } => {
            let t = emoji_text(e);
            lemma_strip_modifications(ms);
            lemma_strip_selector_chars(first_selectors);
            lemma_strip_selector_chars(second_selectors);
            lemma_strip_concat(seq![first_ri], selector_chars(first_selectors));
            lemma_strip_concat(seq![first_ri] + selector_chars(first_selectors), seq![second_ri]);
            lemma_strip_concat(
                seq![first_ri] + selector_chars(first_selectors) + seq![second_ri],
                selector_chars(second_selectors),
            );
            lemma_strip_concat(stem_text(e.stem), modifications_text(ms));
            lemma_strip_concat(seq![first_ri, second_ri], stripped_modifications_text(ms));
            assert(seq![first_ri, second_ri] =~= seq![first_ri] + seq![second_ri]);
            lemma_strip_concat(seq![first_ri], seq![second_ri]);
            assert(strip_selectors(seq![first_ri]) + Seq::<char>::empty() =~= strip_selectors(
                seq![first_ri],
            ));
            assert(strip_selectors(seq![first_ri]) + strip_selectors(seq![second_ri])
                + Seq::<char>::empty() =~= strip_selectors(seq![first_ri]) + strip_selectors(
                seq![second_ri],
            ));
            lemma_fixed_strips_to(a.counts, render_flag(first_ri, second_ri, ms), t);
        },
    }
}

pub(crate) proof fn lemma_link_strips_to(link: Seq<Presentation>)
    ensures
        strips_to(link_analysis(link).elements, link_text(link)),
{
    lemma_strip_concat(seq!['\u{200D}'], selector_chars(link));
    lemma_strip_selector_chars(link);
    assert(strip_selectors(seq!['\u{200D}']) + Seq::<char>::empty() =~= strip_selectors(
        seq!['\u{200D}'],
    ));
    lemma_fixed_strips_to(unsanctioned(link.len()), seq!['\u{200D}'], link_text(link));
}

pub(crate) proof fn lemma_empty_strips_to()
    ensures
        strips_to(empty_analysis().elements, Seq::<char>::empty()),
{
    assert forall|ds: Seq<Presentation>|
        ds.len() == choice_count(empty_analysis().elements) implies #[trigger] strip_selectors(
        render_with(empty_analysis().elements, ds),
    ) == strip_selectors(Seq::<char>::empty()) by {}
}

pub(crate) proof fn lemma_links_strips_to(links: Seq<Seq<Presentation>>)
    ensures
        strips_to(links_analysis(links).elements, links_text(links)),
    decreases links.len(),
{
    if links.len() == 0 {
        lemma_empty_strips_to();
    } else {
        lemma_links_strips_to(links.drop_last());
        lemma_link_strips_to(links.last());
        lemma_strips_to_concat(
            links_analysis(links.drop_last()),
            links_text(links.drop_last()),
            link_analysis(links.last()),
            link_text(links.last()),
        );
    }
}

proof fn lemma_joined_strips_to(joined: Seq<JoinedModel>, policy: Policy)
    ensures
        strips_to(joined_analysis(joined, policy).elements, joined_text(joined)),
    decreases joined.len(),
{
    if joined.len() == 0 {
        lemma_empty_strips_to();
    } else {
        let j = joined.last();
        lemma_joined_strips_to(joined.drop_last(), policy);
        lemma_link_strips_to(j.link);
        lemma_component_strips_to(j.emoji, policy);
        lemma_strips_to_concat(
            joined_analysis(joined.drop_last(), policy),
            joined_text(joined.drop_last()),
            link_analysis(j.link),
            link_text(j.link),
        );
        lemma_strips_to_concat(
            concat_analysis(joined_analysis(joined.drop_last(), policy), link_analysis(j.link)),
            joined_text(joined.drop_last()) + link_text(j.link),
            component_analysis(j.emoji, policy),
            emoji_text(j.emoji),
        );
    }
}

/// For an item of a scan with a finding, every valid decision vector gives
/// a replacement that differs from the item's text only in presentation
/// selectors.
pub proof fn lemma_replacement_changes_only_selectors(
    s: Seq<char>,
    m: ItemModel,
    policy: Policy,
    ds: Seq<Presentation>,
)
    requires
        item_wf(s, m),
        item_analysis(m.kind, policy) is Some,
        ds.len() == choice_count(item_analysis(m.kind, policy)->0.elements),
    ensures
        strip_selectors(render_with(item_analysis(m.kind, policy)->0.elements, ds))
            == strip_selectors(s.subrange(m.start, m.end)),
{
    match m.kind {
        KindModel::Selectors { selectors } => {
            lemma_strip_selector_chars(selectors);
            lemma_fixed_strips_to(unsanctioned(selectors.len()), Seq::empty(), s.subrange(m.start, m.end));
        },
        KindModel::Sequence { sequence } => {
            match sequence {
                SequenceModel::LinksOnly { links } => lemma_links_strips_to(links),
                SequenceModel::EmojiHeaded { first, joined, trailing } => {
                    lemma_component_strips_to(first, policy);
                    lemma_joined_strips_to(joined, policy);
                    lemma_links_strips_to(trailing);
                    lemma_strips_to_concat(
                        component_analysis(first, policy),
                        emoji_text(first),
                        joined_analysis(joined, policy),
                        joined_text(joined),
                    );
                    lemma_strips_to_concat(
                        concat_analysis(component_analysis(first, policy), joined_analysis(joined, policy)),
                        emoji_text(first) + joined_text(joined),
                        links_analysis(trailing),
                        links_text(trailing),
                    );
                },
            }
        },
        KindModel::Passthrough => {},
    }
}

// --- Byte accounting ---

/// The number of presentation selectors in `x`.
pub open spec fn selector_count(x: Seq<char>) -> nat
    decreases x.len(),
{
    if x.len() == 0 {
        0
    } else {
        selector_count(x.drop_last()) + if is_selector_char(x.last()) {
            1nat
        } else {
            0nat
        }
    }
}

/// A text is its selectors and the rest; in UTF-8 each selector takes
/// three bytes.
proof fn lemma_selector_split(x: Seq<char>)
    ensures
        x.len() == strip_selectors(x).len() + selector_count(x),
        encode_utf8(x).len() == encode_utf8(strip_selectors(x)).len() + 3 * selector_count(x),
    decreases x.len(),
{
    if x.len() > 0 {
        let init = x.drop_last();
        let c = x.last();
        lemma_selector_split(init);
        assert(x =~= init + seq![c]);
        lemma_encode_concat(init, seq![c]);
        assert(seq![c].drop_first() =~= Seq::<char>::empty());
        assert(encode_utf8(seq![c]) =~= vstd::utf8::encode_scalar(c as u32) + encode_utf8(
            Seq::<char>::empty(),
        ));
        if !is_selector_char(c) {
            assert(strip_selectors(x) =~= strip_selectors(init) + seq![c]);
            lemma_encode_concat(strip_selectors(init), seq![c]);
        }
    }
}

/// For an item of a scan with a finding, the default replacement's UTF-8
/// length differs from the item's by three bytes per selector supplied
/// (missing required, resolved base) less three per selector removed
/// (unsanctioned, defective, redundant).
pub proof fn lemma_finding_byte_accounting(s: Seq<char>, m: ItemModel, policy: Policy)
    requires
        item_wf(s, m),
        item_analysis(m.kind, policy) is Some,
    ensures
        ({
            let a = item_analysis(m.kind, policy)->0;
            encode_utf8(render_default(a.elements)).len() + 3 * (a.counts.unsanctioned
                + a.counts.defective + a.counts.redundant) == encode_utf8(
                s.subrange(m.start, m.end),
            ).len() + 3 * (a.counts.missing + a.counts.resolve)
        }),
{
    let a = item_analysis(m.kind, policy)->0;
    let raw = s.subrange(m.start, m.end);
    let out = render_default(a.elements);
    lemma_finding_accounting(s, m, policy);
    lemma_default_replacement_is_default_decisions(a.elements);
    lemma_replacement_changes_only_selectors(s, m, policy, default_decisions(a.elements));
    lemma_selector_split(out);
    lemma_selector_split(raw);
}

/// The kind of a scanned item that is one base `base` followed by the
/// selector run `sels`, and by an enclosing keycap when `keycap` holds.
pub open spec fn lone_base_kind(base: char, sels: Seq<Presentation>, keycap: bool) -> KindModel {
    KindModel::Sequence {
        sequence: SequenceModel::EmojiHeaded {
            first: EmojiModel {
                stem: StemModel::SingletonBase { base, selectors: sels },
                modifiers: if keycap {
                    seq![ModificationModel::EnclosingKeycap { selectors: Seq::empty() }]
                } else {
                    Seq::empty()
                },
            },
            joined: Seq::empty(),
            trailing: Seq::empty(),
        },
    }
}

/// How a lone variation-sequence base with a run of `n` selectors is
/// counted under the policy rule for its position: when the rule makes the
/// first selector redundant (a text selector where bare means text and is
/// canonical, an emoji selector where bare means emoji and is canonical),
/// that selector counts as one redundant selector; every selector after the
/// first counts as unsanctioned; with no selector, the base counts as one
/// base to resolve when bare is not canonical. The item is a finding exactly
/// when something is counted.
pub proof fn lemma_lone_base_counts(
    base: char,
    sels: Seq<Presentation>,
    keycap: bool,
    policy: Policy,
)
    requires
        has_vs(base),
    ensures
        ({
            let rule = policy.rule(base, keycap);
            let n = sels.len();
            let redundant: nat = if n > 0 && ((rule == SingletonRule::TextToBare && sels[0]
                == Presentation::Text) || (rule == SingletonRule::EmojiToBare && sels[0]
                == Presentation::Emoji)) {
                1
            } else {
                0
            };
            let extra: nat = if n > 0 {
                (n - 1) as nat
            } else {
                0
            };
            let resolve: nat = if n == 0 && (rule == SingletonRule::BareToEmoji || rule
                == SingletonRule::BareToText) {
                1
            } else {
                0
            };
            match item_analysis(lone_base_kind(base, sels, keycap), policy) {
                Some(a) => a.counts == counts(extra, 0, redundant, 0, resolve) && extra + redundant
                    + resolve > 0,
                None => extra + redundant + resolve == 0,
            }
        }),
{
    let ms: Seq<ModificationModel> = if keycap {
        seq![ModificationModel::EnclosingKeycap { selectors: Seq::empty() }]
    } else {
        Seq::empty()
    };
    assert(modifications_selector_count(ms) == 0) by {
        reveal_with_fuel(modifications_selector_count, 2);
    }
    assert(joined_analysis(Seq::empty(), policy) == empty_analysis());
    assert(links_analysis(Seq::empty()) == empty_analysis());
}

} // verus!
