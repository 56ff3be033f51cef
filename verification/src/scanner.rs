//! Sequence-aware scanner for text/emoji variation sequences.
//!
//! The scanner groups input characters into the structural units that the
//! analysis and formatting layers care about:
//!
//! - *emoji-like units*: singletons and flag pairs, optionally followed by
//!   emoji modifiers, enclosing keycaps or tag modifiers
//! - *ZWJ-related sequences*, including malformed leading, consecutive or
//!   trailing ZWJ links
//! - *unsanctioned presentation selector runs* that are not attached to any
//!   recognized structure
//! - *passthrough* for everything else
//!
//! The scanner preserves the input losslessly: every produced [`ScanItem`]
//! carries its original slice in [`ScanItem::raw`] and its byte range in
//! [`ScanItem::span`]; the items tile the input in order.
//!
//! The behaviour is stated over a model: [`scan_model`] reads a character
//! sequence token by token ([`token_at`]) and groups the tokens into items
//! ([`scan_from`]).

use std::collections::VecDeque;
use std::ops::Range;

use vstd::prelude::*;

use crate::presentation::{is_selector_char, presentation_of, selector_chars, Presentation};
use crate::text::chars_of;
use crate::unicode::{self, emoji_char, emoji_modifier_char, regional_indicator_char, tag_char};
use crate::utf8::{byte_offset, byte_offsets, sub_str};

verus! {

// --- Model of the scanned structure ---

/// Model of a tag-character run and the selectors after it.
pub struct TagRunModel {
    pub tag: Seq<char>,
    pub selectors: Seq<Presentation>,
}

/// Model of one modification after an emoji stem.
pub enum ModificationModel {
    EmojiModifier { modifier: char, selectors: Seq<Presentation> },
    EnclosingKeycap { selectors: Seq<Presentation> },
    TagModifier { runs: Seq<TagRunModel> },
}

/// Model of an emoji stem.
pub enum StemModel {
    SingletonBase { base: char, selectors: Seq<Presentation> },
    Flag {
        first_ri: char,
        first_selectors: Seq<Presentation>,
        second_ri: char,
        second_selectors: Seq<Presentation>,
    },
}

/// Model of an emoji-like unit.
pub struct EmojiModel {
    pub stem: StemModel,
    pub modifiers: Seq<ModificationModel>,
}

/// Model of a ZWJ link followed by an emoji-like unit. A link is modelled by
/// the selectors that follow the ZWJ.
pub struct JoinedModel {
    pub link: Seq<Presentation>,
    pub emoji: EmojiModel,
}

/// Model of an emoji sequence.
pub enum SequenceModel {
    LinksOnly { links: Seq<Seq<Presentation>> },
    EmojiHeaded { first: EmojiModel, joined: Seq<JoinedModel>, trailing: Seq<Seq<Presentation>> },
}

/// Model of an item's classification.
pub enum KindModel {
    Passthrough,
    Selectors { selectors: Seq<Presentation> },
    Sequence { sequence: SequenceModel },
}

/// Model of an item: the character positions it spans, and its kind.
pub struct ItemModel {
    pub start: int,
    pub end: int,
    pub kind: KindModel,
}

/// One structural token at a character position.
pub enum TokenModel {
    Link { selectors: Seq<Presentation> },
    Selectors { selectors: Seq<Presentation> },
    Emoji { emoji: EmojiModel },
    Plain,
}

/// The emoji sequence being assembled while scanning.
pub enum PendingModel {
    Empty,
    LinksOnly { links: Seq<Seq<Presentation>> },
    EmojiHeaded { first: EmojiModel, joined: Seq<JoinedModel>, trailing: Seq<Seq<Presentation>> },
}

// --- Character classes ---

/// Characters that a scanner branch must classify rather than pass through.
pub open spec fn structural_char(c: char) -> bool {
    is_selector_char(c) || c == '\u{200D}' || emoji_char(c)
}

/// The class of characters a run consists of.
pub enum RunClass {
    Selector,
    Tag,
    NonStructural,
}

pub open spec fn in_class(c: char, class: RunClass) -> bool {
    match class {
        RunClass::Selector => is_selector_char(c),
        RunClass::Tag => tag_char(c),
        RunClass::NonStructural => !structural_char(c),
    }
}

/// The end of the longest run of `class` characters starting at `i`.
pub open spec fn run_end(s: Seq<char>, i: int, class: RunClass) -> int
    decreases s.len() - i,
{
    if 0 <= i < s.len() && in_class(s[i], class) {
        run_end(s, i + 1, class)
    } else {
        i
    }
}

/// The end of the selector run starting at `i`.
pub open spec fn selector_end(s: Seq<char>, i: int) -> int {
    run_end(s, i, RunClass::Selector)
}

/// The presentations requested by the selectors at positions `i..j`.
pub open spec fn presentations(s: Seq<char>, i: int, j: int) -> Seq<Presentation> {
    Seq::new((j - i) as nat, |k: int| presentation_of(s[i + k]).unwrap())
}

pub proof fn lemma_run_end(s: Seq<char>, i: int, class: RunClass)
    requires
        0 <= i <= s.len(),
    ensures
        i <= run_end(s, i, class) <= s.len(),
        forall|k: int| i <= k < run_end(s, i, class) ==> in_class(#[trigger] s[k], class),
        run_end(s, i, class) < s.len() ==> !in_class(s[run_end(s, i, class)], class),
    decreases s.len() - i,
{
    if i < s.len() && in_class(s[i], class) {
        lemma_run_end(s, i + 1, class);
    }
}

// --- Tokens ---

/// The tag runs of a tag modifier starting at `i`, and where they end.
pub open spec fn tag_runs_at(s: Seq<char>, i: int) -> (Seq<TagRunModel>, int)
    decreases s.len() - i,
{
    if 0 <= i < s.len() && tag_char(s[i]) {
        let te = run_end(s, i, RunClass::Tag);
        let se = selector_end(s, te);
        proof {
            lemma_run_end(s, i, RunClass::Tag);
            lemma_run_end(s, te, RunClass::Selector);
        }
        let rest = tag_runs_at(s, se);
        (
            seq![TagRunModel { tag: s.subrange(i, te), selectors: presentations(s, te, se) }]
                + rest.0,
            rest.1,
        )
    } else {
        (Seq::empty(), i)
    }
}

pub proof fn lemma_tag_runs_at(s: Seq<char>, i: int)
    requires
        0 <= i <= s.len(),
    ensures
        i <= tag_runs_at(s, i).1 <= s.len(),
        i < s.len() && tag_char(s[i]) ==> i < tag_runs_at(s, i).1,
    decreases s.len() - i,
{
    if i < s.len() && tag_char(s[i]) {
        let te = run_end(s, i, RunClass::Tag);
        lemma_run_end(s, i, RunClass::Tag);
        lemma_run_end(s, te, RunClass::Selector);
        lemma_tag_runs_at(s, selector_end(s, te));
    }
}

/// The modification starting at `i`, if any, and where it ends.
pub open spec fn modification_at(s: Seq<char>, i: int) -> Option<(ModificationModel, int)> {
    if 0 <= i < s.len() {
        let c = s[i];
        if emoji_modifier_char(c) {
            let e = selector_end(s, i + 1);
            Some(
                (
                    ModificationModel::EmojiModifier {
                        modifier: c,
                        selectors: presentations(s, i + 1, e),
                    },
                    e,
                ),
            )
        } else if c == '\u{20E3}' {
            let e = selector_end(s, i + 1);
            Some((ModificationModel::EnclosingKeycap { selectors: presentations(s, i + 1, e) }, e))
        } else if tag_char(c) {
            let r = tag_runs_at(s, i);
            Some((ModificationModel::TagModifier { runs: r.0 }, r.1))
        } else {
            None
        }
    } else {
        None
    }
}

pub proof fn lemma_modification_at(s: Seq<char>, i: int)
    requires
        0 <= i <= s.len(),
    ensures
        modification_at(s, i) matches Some((m, e)) ==> i < e <= s.len(),
{
    if i < s.len() {
        lemma_run_end(s, i + 1, RunClass::Selector);
        lemma_tag_runs_at(s, i);
    }
}

/// The modifications starting at `i`, and where they end.
pub open spec fn modifications_at(s: Seq<char>, i: int) -> (Seq<ModificationModel>, int)
    decreases s.len() - i,
{
    if 0 <= i <= s.len() {
        match modification_at(s, i) {
            Some((m, e)) => {
                proof {
                    lemma_modification_at(s, i);
                }
                let rest = modifications_at(s, e);
                (seq![m] + rest.0, rest.1)
            },
            None => (Seq::empty(), i),
        }
    } else {
        (Seq::empty(), i)
    }
}

pub proof fn lemma_modifications_at(s: Seq<char>, i: int)
    requires
        0 <= i <= s.len(),
    ensures
        i <= modifications_at(s, i).1 <= s.len(),
    decreases s.len() - i,
{
    lemma_modification_at(s, i);
    if let Some((m, e)) = modification_at(s, i) {
        lemma_modifications_at(s, e);
    }
}

/// The stem starting at `i` (a regional indicator pair, or a single
/// character), and where it ends.
pub open spec fn stem_at(s: Seq<char>, i: int) -> (StemModel, int) {
    let c = s[i];
    let e1 = selector_end(s, i + 1);
    if regional_indicator_char(c) && e1 < s.len() && regional_indicator_char(s[e1]) {
        let e2 = selector_end(s, e1 + 1);
        (
            StemModel::Flag {
                first_ri: c,
                first_selectors: presentations(s, i + 1, e1),
                second_ri: s[e1],
                second_selectors: presentations(s, e1 + 1, e2),
            },
            e2,
        )
    } else {
        (StemModel::SingletonBase { base: c, selectors: presentations(s, i + 1, e1) }, e1)
    }
}

pub proof fn lemma_stem_at(s: Seq<char>, i: int)
    requires
        0 <= i < s.len(),
    ensures
        i < stem_at(s, i).1 <= s.len(),
{
    lemma_run_end(s, i + 1, RunClass::Selector);
    let e1 = selector_end(s, i + 1);
    if e1 < s.len() {
        lemma_run_end(s, e1 + 1, RunClass::Selector);
    }
}

/// The token starting at position `i < s.len()`, and where it ends.
pub open spec fn token_at(s: Seq<char>, i: int) -> (TokenModel, int) {
    let c = s[i];
    if c == '\u{200D}' {
        let e = selector_end(s, i + 1);
        (TokenModel::Link { selectors: presentations(s, i + 1, e) }, e)
    } else if is_selector_char(c) {
        let e = selector_end(s, i);
        (TokenModel::Selectors { selectors: presentations(s, i, e) }, e)
    } else if regional_indicator_char(c) || emoji_char(c) {
        let st = stem_at(s, i);
        let ms = modifications_at(s, st.1);
        (TokenModel::Emoji { emoji: EmojiModel { stem: st.0, modifiers: ms.0 } }, ms.1)
    } else {
        (TokenModel::Plain, run_end(s, i, RunClass::NonStructural))
    }
}

pub proof fn lemma_token_at(s: Seq<char>, i: int)
    requires
        0 <= i < s.len(),
    ensures
        i < token_at(s, i).1 <= s.len(),
{
    lemma_run_end(s, i + 1, RunClass::Selector);
    lemma_run_end(s, i, RunClass::Selector);
    lemma_run_end(s, i, RunClass::NonStructural);
    lemma_stem_at(s, i);
    lemma_modifications_at(s, stem_at(s, i).1);
}

// --- Grouping tokens into items ---

/// The item, if any, that the pending sequence becomes when it spans
/// `start..end`.
pub open spec fn flush(p: PendingModel, start: int, end: int) -> Seq<ItemModel> {
    match p {
        PendingModel::Empty => Seq::empty(),
        PendingModel::LinksOnly { links } => seq![
            ItemModel {
                start,
                end,
                kind: KindModel::Sequence { sequence: SequenceModel::LinksOnly { links } },
            },
        ],
        PendingModel::EmojiHeaded { first, joined, trailing } => seq![
            ItemModel {
                start,
                end,
                kind: KindModel::Sequence {
                    sequence: SequenceModel::EmojiHeaded { first, joined, trailing },
                },
            },
        ],
    }
}

/// Append a ZWJ link; every pending shape accepts one.
pub open spec fn push_link(p: PendingModel, link: Seq<Presentation>) -> PendingModel {
    match p {
        PendingModel::Empty => PendingModel::LinksOnly { links: seq![link] },
        PendingModel::LinksOnly { links } => PendingModel::LinksOnly { links: links.push(link) },
        PendingModel::EmojiHeaded { first, joined, trailing } => PendingModel::EmojiHeaded {
            first,
            joined,
            trailing: trailing.push(link),
        },
    }
}

/// Whether the pending sequence awaits an emoji: it is emoji-headed and ends
/// with exactly one trailing link.
pub open spec fn awaits_emoji(p: PendingModel) -> bool {
    p matches PendingModel::EmojiHeaded { trailing, .. } && trailing.len() == 1
}

/// Join `emoji` through the one trailing link of an awaiting sequence.
pub open spec fn join_emoji(p: PendingModel, emoji: EmojiModel) -> PendingModel {
    match p {
        PendingModel::EmojiHeaded { first, joined, trailing } => PendingModel::EmojiHeaded {
            first,
            joined: joined.push(JoinedModel { link: trailing[0], emoji }),
            trailing: Seq::empty(),
        },
        _ => p,
    }
}

/// The items produced from position `i` on, when the pending sequence `p`
/// started at `start`.
pub open spec fn scan_from(s: Seq<char>, i: int, start: int, p: PendingModel) -> Seq<ItemModel>
    decreases s.len() - i,
{
    if 0 <= i < s.len() {
        proof {
            lemma_token_at(s, i);
        }
        let t = token_at(s, i);
        let e = t.1;
        match t.0 {
            TokenModel::Link { selectors } => scan_from(s, e, start, push_link(p, selectors)),
            TokenModel::Selectors { selectors } => flush(p, start, i) + seq![
                ItemModel { start: i, end: e, kind: KindModel::Selectors { selectors } },
            ] + scan_from(s, e, e, PendingModel::Empty),
            TokenModel::Emoji { emoji } => if awaits_emoji(p) {
                scan_from(s, e, start, join_emoji(p, emoji))
            } else {
                flush(p, start, i) + scan_from(
                    s,
                    e,
                    i,
                    PendingModel::EmojiHeaded { first: emoji, joined: Seq::empty(), trailing: Seq::empty() },
                )
            },
            TokenModel::Plain => flush(p, start, i) + seq![
                ItemModel { start: i, end: e, kind: KindModel::Passthrough },
            ] + scan_from(s, e, e, PendingModel::Empty),
        }
    } else {
        flush(p, start, i)
    }
}

/// The items that scanning `s` produces.
pub open spec fn scan_model(s: Seq<char>) -> Seq<ItemModel> {
    scan_from(s, 0, 0, PendingModel::Empty)
}

// --- Scanned structure ---

/// A greedily collected run of emoji tag characters (`U+E0020`-`U+E007F`),
/// followed by the presentation selectors that appeared after the run.
#[derive(Debug, Clone, PartialEq, Eq)]
#[non_exhaustive]
pub struct EmojiTagRun {
    /// The tag characters in source order.
    pub tag: Vec<char>,
    /// Presentation selectors that immediately followed this tag run.
    pub presentation_selectors_after_tag: Vec<Presentation>,
}

/// A modification applied to an [`EmojiStem`], with its trailing
/// presentation selectors.
#[derive(Debug, Clone, PartialEq, Eq)]
#[non_exhaustive]
pub enum EmojiModification {
    /// An emoji modifier (`U+1F3FB`-`U+1F3FF`).
    EmojiModifier {
        /// The emoji modifier character.
        modifier: char,
        /// Presentation selectors that immediately followed the modifier.
        presentation_selectors_after_modifier: Vec<Presentation>,
    },
    /// A combining enclosing keycap (`U+20E3`). The stem is not checked to be
    /// a valid keycap base.
    EnclosingKeycap {
        /// Presentation selectors that immediately followed the keycap.
        presentation_selectors_after_keycap: Vec<Presentation>,
    },
    /// One or more emoji tag runs forming a tag specification; several runs
    /// appear when selectors are interspersed among the tag characters.
    TagModifier(Vec<EmojiTagRun>),
}

/// The base of an emoji-like unit, before any modifications.
#[derive(Debug, Clone, PartialEq, Eq)]
#[non_exhaustive]
pub enum EmojiStem {
    /// A single emoji character, including an unpaired regional indicator.
    SingletonBase {
        /// The base character.
        base: char,
        /// Presentation selectors that immediately followed the base.
        presentation_selectors_after_base: Vec<Presentation>,
    },
    /// A flag sequence: two regional indicator characters.
    Flag {
        /// The first regional indicator of the pair.
        first_ri: char,
        /// Presentation selectors that followed the first indicator.
        presentation_selectors_after_first_ri: Vec<Presentation>,
        /// The second regional indicator of the pair.
        second_ri: char,
        /// Presentation selectors that followed the second indicator.
        presentation_selectors_after_second_ri: Vec<Presentation>,
    },
}

/// An emoji-like unit: a stem plus zero or more modifications.
#[derive(Debug, Clone, PartialEq, Eq)]
#[non_exhaustive]
pub struct EmojiLike {
    /// The base of the unit.
    pub stem: EmojiStem,
    /// Modifications applied to the stem, in source order.
    pub modifiers: Vec<EmojiModification>,
}

/// A ZWJ (`U+200D`) link, plus the presentation selectors right after it.
#[derive(Debug, Clone, PartialEq, Eq)]
#[non_exhaustive]
pub struct ZwjLink {
    /// Presentation selectors that followed the ZWJ.
    pub presentation_selectors_after_link: Vec<Presentation>,
}

/// One `ZWJ + emoji` pair after the first emoji component of a sequence.
#[derive(Debug, Clone, PartialEq, Eq)]
#[non_exhaustive]
pub struct ZwjJoinedEmoji {
    /// The ZWJ link before this emoji component.
    pub link: ZwjLink,
    /// The emoji-like component after the link.
    pub emoji: EmojiLike,
}

/// Emoji-related sequence structure produced by the scanner.
#[derive(Debug, Clone, PartialEq, Eq)]
#[non_exhaustive]
pub enum EmojiSequence {
    /// One or more ZWJ links with no emoji component.
    LinksOnly(Vec<ZwjLink>),
    /// An emoji component, joined components, and trailing links.
    EmojiHeaded {
        /// The first emoji-like component.
        first: EmojiLike,
        /// Components that were reached through a preceding ZWJ link.
        joined: Vec<ZwjJoinedEmoji>,
        /// ZWJ links after the final emoji component.
        trailing_links: Vec<ZwjLink>,
    },
}

/// A single scanned item: its raw source slice, its byte range, and its
/// structural classification.
#[derive(Debug, PartialEq, Eq)]
#[non_exhaustive]
pub struct ScanItem<'a> {
    /// The raw source text for this item.
    pub raw: &'a str,
    /// Byte range of this item in the original input.
    pub span: Range<usize>,
    /// Structural classification of this item.
    pub kind: ScanKind,
}

/// The structural classification of a scanned item.
#[derive(Debug, Clone, PartialEq, Eq)]
#[non_exhaustive]
pub enum ScanKind {
    /// Non-structural content.
    Passthrough,
    /// A run of presentation selectors not attached to any recognized emoji
    /// structure.
    UnsanctionedPresentationSelectors(Vec<Presentation>),
    /// An emoji sequence, possibly containing ZWJ joins.
    EmojiSequence(EmojiSequence),
}

impl<'a> Clone for ScanItem<'a> {
    fn clone(&self) -> (r: Self)
        ensures
            r.raw == self.raw,
            r.span == self.span,
    {
        ScanItem { raw: self.raw, span: self.span.start..self.span.end, kind: self.kind.clone() }
    }
}

// --- Views onto the model ---

impl View for EmojiTagRun {
    type V = TagRunModel;

    open spec fn view(&self) -> TagRunModel {
        TagRunModel { tag: self.tag@, selectors: self.presentation_selectors_after_tag@ }
    }
}

pub open spec fn tag_runs_view(runs: Seq<EmojiTagRun>) -> Seq<TagRunModel> {
    runs.map_values(|r: EmojiTagRun| r@)
}

impl View for EmojiModification {
    type V = ModificationModel;

    open spec fn view(&self) -> ModificationModel {
        match self {
            EmojiModification::EmojiModifier { modifier, presentation_selectors_after_modifier } =>
                ModificationModel::EmojiModifier {
                modifier: *modifier,
                selectors: presentation_selectors_after_modifier@,
            },
            EmojiModification::EnclosingKeycap { presentation_selectors_after_keycap } =>
                ModificationModel::EnclosingKeycap {
                selectors: presentation_selectors_after_keycap@,
            },
            EmojiModification::TagModifier(runs) => ModificationModel::TagModifier {
                runs: tag_runs_view(runs@),
            },
        }
    }
}

pub open spec fn modifications_view(ms: Seq<EmojiModification>) -> Seq<ModificationModel> {
    ms.map_values(|m: EmojiModification| m@)
}

impl View for EmojiStem {
    type V = StemModel;

    open spec fn view(&self) -> StemModel {
        match self {
            EmojiStem::SingletonBase { base, presentation_selectors_after_base } =>
                StemModel::SingletonBase {
                base: *base,
                selectors: presentation_selectors_after_base@,
            },
            EmojiStem::Flag {
                first_ri,
                presentation_selectors_after_first_ri,
                second_ri,
                presentation_selectors_after_second_ri,
            } => StemModel::Flag {
                first_ri: *first_ri,
                first_selectors: presentation_selectors_after_first_ri@,
                second_ri: *second_ri,
                second_selectors: presentation_selectors_after_second_ri@,
            },
        }
    }
}

impl View for EmojiLike {
    type V = EmojiModel;

    open spec fn view(&self) -> EmojiModel {
        EmojiModel { stem: self.stem@, modifiers: modifications_view(self.modifiers@) }
    }
}

impl View for ZwjLink {
    type V = Seq<Presentation>;

    open spec fn view(&self) -> Seq<Presentation> {
        self.presentation_selectors_after_link@
    }
}

pub open spec fn links_view(links: Seq<ZwjLink>) -> Seq<Seq<Presentation>> {
    links.map_values(|l: ZwjLink| l@)
}

impl View for ZwjJoinedEmoji {
    type V = JoinedModel;

    open spec fn view(&self) -> JoinedModel {
        JoinedModel { link: self.link@, emoji: self.emoji@ }
    }
}

pub open spec fn joined_view(joined: Seq<ZwjJoinedEmoji>) -> Seq<JoinedModel> {
    joined.map_values(|j: ZwjJoinedEmoji| j@)
}

impl View for EmojiSequence {
    type V = SequenceModel;

    open spec fn view(&self) -> SequenceModel {
        match self {
            EmojiSequence::LinksOnly(links) => SequenceModel::LinksOnly {
                links: links_view(links@),
            },
            EmojiSequence::EmojiHeaded { first, joined, trailing_links } =>
                SequenceModel::EmojiHeaded {
                first: first@,
                joined: joined_view(joined@),
                trailing: links_view(trailing_links@),
            },
        }
    }
}

impl View for ScanKind {
    type V = KindModel;

    open spec fn view(&self) -> KindModel {
        match self {
            ScanKind::Passthrough => KindModel::Passthrough,
            ScanKind::UnsanctionedPresentationSelectors(selectors) => KindModel::Selectors {
                selectors: selectors@,
            },
            ScanKind::EmojiSequence(sequence) => KindModel::Sequence { sequence: sequence@ },
        }
    }
}

/// Whether `item`, scanned from text `s`, is the model item `m`: its raw
/// text is `s` at the model positions, its span the byte offsets of those
/// positions, and its kind the model kind.
pub open spec fn item_is(s: Seq<char>, item: ScanItem, m: ItemModel) -> bool {
    &&& 0 <= m.start <= m.end <= s.len()
    &&& item.raw@ == s.subrange(m.start, m.end)
    &&& item.span.start == byte_offset(s, m.start)
    &&& item.span.end == byte_offset(s, m.end)
    &&& item.kind@ == m.kind
}

// --- Reading runs ---

fn selector_presentation(c: char) -> (p: Presentation)
    requires
        is_selector_char(c),
    ensures
        presentation_of(c) == Some(p),
{
    if c == unicode::TEXT_PRESENTATION_SELECTOR {
        Presentation::Text
    } else {
        Presentation::Emoji
    }
}

fn is_selector(c: char) -> (r: bool)
    ensures
        r == is_selector_char(c),
{
    c == unicode::TEXT_PRESENTATION_SELECTOR || c == unicode::EMOJI_PRESENTATION_SELECTOR
}

fn is_structural_start(c: char) -> (r: bool)
    ensures
        r == structural_char(c),
{
    is_selector(c) || c == unicode::ZWJ || unicode::is_emoji(c)
}

/// The selector run starting at `i`, and where it ends.
fn selector_run(chars: &Vec<char>, i: usize) -> (r: (Vec<Presentation>, usize))
    requires
        i <= chars.len(),
    ensures
        r.1 == selector_end(chars@, i as int),
        r.0@ == presentations(chars@, i as int, r.1 as int),
{
    let mut out: Vec<Presentation> = Vec::new();
    let mut j = i;
    proof {
        assert(out@ =~= presentations(chars@, i as int, j as int));
    }
    while j < chars.len() && is_selector(chars[j])
        invariant
            i <= j <= chars.len(),
            run_end(chars@, j as int, RunClass::Selector) == run_end(
                chars@,
                i as int,
                RunClass::Selector,
            ),
            out@ == presentations(chars@, i as int, j as int),
        decreases chars.len() - j,
    {
        let p = selector_presentation(chars[j]);
        out.push(p);
        j = j + 1;
        proof {
            assert(out@ =~= presentations(chars@, i as int, j as int));
        }
    }
    (out, j)
}

/// The tag characters starting at `i`, and where they end.
fn tag_chars(chars: &Vec<char>, i: usize) -> (r: (Vec<char>, usize))
    requires
        i <= chars.len(),
    ensures
        r.1 == run_end(chars@, i as int, RunClass::Tag),
        r.0@ == chars@.subrange(i as int, r.1 as int),
{
    let mut out: Vec<char> = Vec::new();
    let mut j = i;
    while j < chars.len() && unicode::is_tag(chars[j])
        invariant
            i <= j <= chars.len(),
            run_end(chars@, j as int, RunClass::Tag) == run_end(chars@, i as int, RunClass::Tag),
            out@ == chars@.subrange(i as int, j as int),
        decreases chars.len() - j,
    {
        out.push(chars[j]);
        j = j + 1;
        proof {
            assert(out@ =~= chars@.subrange(i as int, j as int));
        }
    }
    (out, j)
}

/// Where the run of non-structural characters starting at `i` ends.
fn plain_end(chars: &Vec<char>, i: usize) -> (r: usize)
    requires
        i <= chars.len(),
    ensures
        r == run_end(chars@, i as int, RunClass::NonStructural),
{
    let mut j = i;
    while j < chars.len() && !is_structural_start(chars[j])
        invariant
            i <= j <= chars.len(),
            run_end(chars@, j as int, RunClass::NonStructural) == run_end(
                chars@,
                i as int,
                RunClass::NonStructural,
            ),
        decreases chars.len() - j,
    {
        j = j + 1;
    }
    j
}

// --- Reading tokens ---

/// The tag runs of a tag modifier starting at `i`, and where they end.
fn tag_runs(chars: &Vec<char>, i: usize) -> (r: (Vec<EmojiTagRun>, usize))
    requires
        i <= chars.len(),
    ensures
        tag_runs_view(r.0@) == tag_runs_at(chars@, i as int).0,
        r.1 == tag_runs_at(chars@, i as int).1,
{
    let mut runs: Vec<EmojiTagRun> = Vec::new();
    let mut j = i;
    proof {
        assert(tag_runs_view(runs@) + tag_runs_at(chars@, j as int).0 =~= tag_runs_at(
            chars@,
            i as int,
        ).0);
    }
    while j < chars.len() && unicode::is_tag(chars[j])
        invariant
            i <= j <= chars.len(),
            tag_runs_view(runs@) + tag_runs_at(chars@, j as int).0 == tag_runs_at(
                chars@,
                i as int,
            ).0,
            tag_runs_at(chars@, j as int).1 == tag_runs_at(chars@, i as int).1,
        decreases chars.len() - j,
    {
        let (tag, te) = tag_chars(chars, j);
        proof {
            lemma_run_end(chars@, j as int, RunClass::Tag);
        }
        let (selectors, se) = selector_run(chars, te);
        proof {
            lemma_run_end(chars@, te as int, RunClass::Selector);
        }
        let run = EmojiTagRun { tag, presentation_selectors_after_tag: selectors };
        let ghost before = runs@;
        runs.push(run);
        proof {
            assert(tag_runs_view(runs@) =~= tag_runs_view(before).push(run@));
            assert(tag_runs_view(runs@) + tag_runs_at(chars@, se as int).0 =~= tag_runs_view(before)
                + tag_runs_at(chars@, j as int).0);
        }
        j = se;
    }
    proof {
        assert(tag_runs_view(runs@) + tag_runs_at(chars@, j as int).0 =~= tag_runs_view(runs@));
    }
    (runs, j)
}

/// The modification starting at `i`, if any, and where it ends.
fn modification(chars: &Vec<char>, i: usize) -> (r: Option<(EmojiModification, usize)>)
    requires
        i <= chars.len(),
    ensures
        match r {
            Some((m, e)) => modification_at(chars@, i as int) == Some((m@, e as int)),
            None => modification_at(chars@, i as int) is None,
        },
{
    if i >= chars.len() {
        return None;
    }
    let c = chars[i];
    if unicode::is_emoji_modifier(c) {
        let (selectors, e) = selector_run(chars, i + 1);
        Some(
            (
                EmojiModification::EmojiModifier {
                    modifier: c,
                    presentation_selectors_after_modifier: selectors,
                },
                e,
            ),
        )
    } else if c == unicode::COMBINING_ENCLOSING_KEYCAP {
        let (selectors, e) = selector_run(chars, i + 1);
        Some((EmojiModification::EnclosingKeycap { presentation_selectors_after_keycap: selectors }, e))
    } else if unicode::is_tag(c) {
        let (runs, e) = tag_runs(chars, i);
        Some((EmojiModification::TagModifier(runs), e))
    } else {
        None
    }
}

/// The modifications starting at `i`, and where they end.
fn modifications(chars: &Vec<char>, i: usize) -> (r: (Vec<EmojiModification>, usize))
    requires
        i <= chars.len(),
    ensures
        modifications_view(r.0@) == modifications_at(chars@, i as int).0,
        r.1 == modifications_at(chars@, i as int).1,
{
    let mut out: Vec<EmojiModification> = Vec::new();
    let mut j = i;
    proof {
        assert(modifications_view(out@) + modifications_at(chars@, j as int).0 =~= modifications_at(
            chars@,
            i as int,
        ).0);
    }
    loop
        invariant
            i <= j <= chars.len(),
            modifications_view(out@) + modifications_at(chars@, j as int).0 == modifications_at(
                chars@,
                i as int,
            ).0,
            modifications_at(chars@, j as int).1 == modifications_at(chars@, i as int).1,
        decreases chars.len() - j,
    {
        match modification(chars, j) {
            Some((m, e)) => {
                proof {
                    lemma_modification_at(chars@, j as int);
                }
                let ghost before = out@;
                out.push(m);
                proof {
                    assert(modifications_view(out@) =~= modifications_view(before).push(m@));
                    assert(modifications_view(out@) + modifications_at(chars@, e as int).0
                        =~= modifications_view(before) + modifications_at(chars@, j as int).0);
                }
                j = e;
            },
            None => {
                proof {
                    assert(modifications_view(out@) + modifications_at(chars@, j as int).0
                        =~= modifications_view(out@));
                }
                return (out, j);
            },
        }
    }
}

/// The stem starting at `i`, and where it ends.
fn stem(chars: &Vec<char>, i: usize) -> (r: (EmojiStem, usize))
    requires
        i < chars.len(),
    ensures
        r.0@ == stem_at(chars@, i as int).0,
        r.1 == stem_at(chars@, i as int).1,
{
    let c = chars[i];
    let (first_selectors, e1) = selector_run(chars, i + 1);
    proof {
        lemma_run_end(chars@, i as int + 1, RunClass::Selector);
    }
    if unicode::is_ri(c) && e1 < chars.len() && unicode::is_ri(chars[e1]) {
        let second = chars[e1];
        let (second_selectors, e2) = selector_run(chars, e1 + 1);
        (
            EmojiStem::Flag {
                first_ri: c,
                presentation_selectors_after_first_ri: first_selectors,
                second_ri: second,
                presentation_selectors_after_second_ri: second_selectors,
            },
            e2,
        )
    } else {
        (EmojiStem::SingletonBase { base: c, presentation_selectors_after_base: first_selectors }, e1)
    }
}

/// One structural token.
enum Token {
    Link(Vec<Presentation>),
    Selectors(Vec<Presentation>),
    Emoji(EmojiLike),
    Plain,
}

impl View for Token {
    type V = TokenModel;

    closed spec fn view(&self) -> TokenModel {
        match self {
            Token::Link(selectors) => TokenModel::Link { selectors: selectors@ },
            Token::Selectors(selectors) => TokenModel::Selectors { selectors: selectors@ },
            Token::Emoji(emoji) => TokenModel::Emoji { emoji: emoji@ },
            Token::Plain => TokenModel::Plain,
        }
    }
}

/// The token starting at `i`, and where it ends.
fn token(chars: &Vec<char>, i: usize) -> (r: (Token, usize))
    requires
        i < chars.len(),
    ensures
        r.0@ == token_at(chars@, i as int).0,
        r.1 == token_at(chars@, i as int).1,
{
    let c = chars[i];
    if c == unicode::ZWJ {
        let (selectors, e) = selector_run(chars, i + 1);
        (Token::Link(selectors), e)
    } else if is_selector(c) {
        let (selectors, e) = selector_run(chars, i);
        (Token::Selectors(selectors), e)
    } else if unicode::is_ri(c) || unicode::is_emoji(c) {
        let (st, e) = stem(chars, i);
        proof {
            lemma_stem_at(chars@, i as int);
        }
        let (modifiers, e2) = modifications(chars, e);
        (Token::Emoji(EmojiLike { stem: st, modifiers }), e2)
    } else {
        (Token::Plain, plain_end(chars, i))
    }
}

// --- Assembling items ---

/// The emoji sequence being assembled.
enum Pending {
    Empty,
    LinksOnly(Vec<ZwjLink>),
    EmojiHeaded { first: EmojiLike, joined: Vec<ZwjJoinedEmoji>, trailing: Vec<ZwjLink> },
}

impl View for Pending {
    type V = PendingModel;

    closed spec fn view(&self) -> PendingModel {
        match self {
            Pending::Empty => PendingModel::Empty,
            Pending::LinksOnly(links) => PendingModel::LinksOnly { links: links_view(links@) },
            Pending::EmojiHeaded { first, joined, trailing } => PendingModel::EmojiHeaded {
                first: first@,
                joined: joined_view(joined@),
                trailing: links_view(trailing@),
            },
        }
    }
}

impl Pending {
    fn is_empty(&self) -> (r: bool)
        ensures
            r == (self@ is Empty),
    {
        match self {
            Pending::Empty => true,
            _ => false,
        }
    }

    fn push_link(self, link: ZwjLink) -> (r: Pending)
        ensures
            r@ == push_link(self@, link@),
    {
        match self {
            Pending::Empty => {
                let mut links = Vec::new();
                links.push(link);
                proof {
                    assert(links_view(links@) =~= seq![link@]);
                }
                Pending::LinksOnly(links)
            },
            Pending::LinksOnly(mut links) => {
                let ghost before = links@;
                links.push(link);
                proof {
                    assert(links_view(links@) =~= links_view(before).push(link@));
                }
                Pending::LinksOnly(links)
            },
            Pending::EmojiHeaded { first, joined, mut trailing } => {
                let ghost before = trailing@;
                trailing.push(link);
                proof {
                    assert(links_view(trailing@) =~= links_view(before).push(link@));
                }
                Pending::EmojiHeaded { first, joined, trailing }
            },
        }
    }

    fn awaits_emoji(&self) -> (r: bool)
        ensures
            r == awaits_emoji(self@),
    {
        match self {
            Pending::EmojiHeaded { trailing, .. } => trailing.len() == 1,
            _ => false,
        }
    }

    fn join_emoji(self, emoji: EmojiLike) -> (r: Pending)
        requires
            awaits_emoji(self@),
        ensures
            r@ == join_emoji(self@, emoji@),
    {
        match self {
            Pending::EmojiHeaded { first, mut joined, mut trailing } => {
                let ghost before = joined@;
                let ghost links = links_view(trailing@);
                let link = trailing.pop().unwrap();
                assert(link@ == links[0]);
                joined.push(ZwjJoinedEmoji { link, emoji });
                proof {
                    assert(joined_view(joined@) =~= joined_view(before).push(
                        JoinedModel { link: links[0], emoji: emoji@ },
                    ));
                    assert(links_view(trailing@) =~= Seq::<Seq<Presentation>>::empty());
                }
                Pending::EmojiHeaded { first, joined, trailing }
            },
            _ => self,
        }
    }

    fn into_sequence(self) -> (r: Option<EmojiSequence>)
        ensures
            match r {
                None => self@ is Empty,
                Some(sequence) => match self@ {
                    PendingModel::Empty => false,
                    PendingModel::LinksOnly { links } => sequence@ == SequenceModel::LinksOnly {
                        links,
                    },
                    PendingModel::EmojiHeaded { first, joined, trailing } => sequence@
                        == SequenceModel::EmojiHeaded { first, joined, trailing },
                },
            },
    {
        match self {
            Pending::Empty => None,
            Pending::LinksOnly(links) => Some(EmojiSequence::LinksOnly(links)),
            Pending::EmojiHeaded { first, joined, trailing } => Some(
                EmojiSequence::EmojiHeaded { first, joined, trailing_links: trailing },
            ),
        }
    }
}

/// Whether `offsets` holds the byte offset of every character position of `s`.
pub open spec fn offsets_of(s: Seq<char>, offsets: Seq<usize>) -> bool {
    &&& offsets.len() == s.len() + 1
    &&& forall|k: int| 0 <= k <= s.len() ==> #[trigger] offsets[k] == byte_offset(s, k)
}

/// The item for positions `a..b` of `input`.
fn make_item<'a>(input: &'a str, offsets: &Vec<usize>, a: usize, b: usize, kind: ScanKind) -> (r:
    ScanItem<'a>)
    requires
        a <= b <= input@.len(),
        offsets_of(input@, offsets@),
    ensures
        item_is(input@, r, ItemModel { start: a as int, end: b as int, kind: kind@ }),
{
    let raw = sub_str(input, offsets[a], offsets[b], Ghost(a as int), Ghost(b as int));
    ScanItem { raw, span: offsets[a]..offsets[b], kind }
}

/// Queue the pending sequence, if any, as the item for positions `start..end`.
fn flush_pending<'a>(
    input: &'a str,
    offsets: &Vec<usize>,
    ready: &mut VecDeque<ScanItem<'a>>,
    pending: Pending,
    start: usize,
    end: usize,
)
    requires
        start <= end <= input@.len(),
        offsets_of(input@, offsets@),
    ensures
        final(ready)@.len() == old(ready)@.len() + flush(pending@, start as int, end as int).len(),
        forall|k: int| 0 <= k < old(ready)@.len() ==> #[trigger] final(ready)@[k] == old(ready)@[k],
        forall|k: int|
            0 <= k < flush(pending@, start as int, end as int).len() ==> item_is(
                input@,
                #[trigger] final(ready)@[old(ready)@.len() + k],
                flush(pending@, start as int, end as int)[k],
            ),
{
    let ghost p = pending@;
    match pending.into_sequence() {
        Some(sequence) => {
            let item = make_item(input, offsets, start, end, ScanKind::EmojiSequence(sequence));
            ready.push_back(item);
        },
        None => {},
    }
}

/// A scanner over the items of one input, yielding them in order.
///
/// Created by [`scan`].
#[derive(Debug)]
pub struct Scanner<'a> {
    ready: VecDeque<ScanItem<'a>>,
}

impl<'a> Scanner<'a> {
    /// The items not yet returned by [`Scanner::next`], in order.
    pub closed spec fn remaining(self) -> Seq<ScanItem<'a>> {
        self.ready@
    }

    /// Return the next item, if any.
    pub fn next(&mut self) -> (r: Option<ScanItem<'a>>)
        ensures
            old(self).remaining().len() == 0 ==> r is None && final(self).remaining() == old(
                self,
            ).remaining(),
            old(self).remaining().len() > 0 ==> r == Some(old(self).remaining()[0])
                && final(self).remaining() == old(self).remaining().drop_first(),
    {
        let r = self.ready.pop_front();
        proof {
            if old(self).remaining().len() > 0 {
                assert(self.ready@ =~= old(self).remaining().drop_first());
            }
        }
        r
    }

    /// Return all items not yet returned, in order.
    pub fn into_items(self) -> (r: Vec<ScanItem<'a>>)
        ensures
            r@ == self.remaining(),
    {
        let ghost all = self.ready@;
        let mut ready = self.ready;
        let mut out: Vec<ScanItem<'a>> = Vec::new();
        while ready.len() > 0
            invariant
                out@ + ready@ == all,
            decreases ready@.len(),
        {
            let ghost before = ready@;
            let item = ready.pop_front().unwrap();
            out.push(item);
            proof {
                assert(out@ + ready@ =~= all);
            }
        }
        proof {
            assert(out@ + ready@ =~= out@);
        }
        out
    }
}

/// Scan `input` into its sequence of items.
///
/// The items are those of [`scan_model`]: each has the model's raw text,
/// byte span and kind.
pub fn scan(input: &str) -> (r: Scanner<'_>)
    ensures
        r.remaining().len() == scan_model(input@).len(),
        forall|k: int|
            0 <= k < scan_model(input@).len() ==> item_is(
                input@,
                #[trigger] r.remaining()[k],
                scan_model(input@)[k],
            ),
{
    let chars = chars_of(input);
    let offsets = byte_offsets(input, &chars);
    let ghost s = input@;
    let mut ready: VecDeque<ScanItem> = VecDeque::new();
    let mut pending = Pending::Empty;
    let mut start: usize = 0;
    let mut i: usize = 0;
    let ghost mut done: Seq<ItemModel> = Seq::empty();
    proof {
        assert(done + scan_from(s, 0, 0, PendingModel::Empty) =~= scan_model(s));
    }
    while i < chars.len()
        invariant
            chars@ == s,
            s == input@,
            offsets_of(s, offsets@),
            start <= i <= chars.len(),
            pending@ is Empty ==> start == i,
            done + scan_from(s, i as int, start as int, pending@) == scan_model(s),
            ready@.len() == done.len(),
            forall|k: int| 0 <= k < done.len() ==> item_is(s, #[trigger] ready@[k], done[k]),
        decreases chars.len() - i,
    {
        let (tok, e) = token(&chars, i);
        proof {
            lemma_token_at(s, i as int);
        }
        let ghost p = pending@;
        let ghost old_ready = ready@;
        match tok {
            Token::Link(selectors) => {
                pending = pending.push_link(ZwjLink { presentation_selectors_after_link: selectors });
            },
            Token::Selectors(selectors) => {
                let ghost sel = selectors@;
                flush_pending(input, &offsets, &mut ready, pending, start, i);
                let item = make_item(
                    input,
                    &offsets,
                    i,
                    e,
                    ScanKind::UnsanctionedPresentationSelectors(selectors),
                );
                ready.push_back(item);
                pending = Pending::Empty;
                proof {
                    let added = flush(p, start as int, i as int) + seq![
                        ItemModel { start: i as int, end: e as int, kind: KindModel::Selectors { selectors: sel } },
                    ];
                    assert forall|k: int| 0 <= k < done.len() + added.len() implies item_is(
                        s,
                        #[trigger] ready@[k],
                        (done + added)[k],
                    ) by {
                        if k >= done.len() + flush(p, start as int, i as int).len() {
                        } else if k >= done.len() {
                            assert(ready@[k] == ready@[old_ready.len() + (k - done.len())]);
                        }
                    }
                    assert(done + added + scan_from(s, e as int, e as int, PendingModel::Empty)
                        =~= done + scan_from(s, i as int, start as int, p));
                    done = done + added;
                }
                start = e;
            },
            Token::Emoji(emoji) => {
                if pending.awaits_emoji() {
                    pending = pending.join_emoji(emoji);
                } else {
                    flush_pending(input, &offsets, &mut ready, pending, start, i);
                    let ghost em = emoji@;
                    pending = Pending::EmojiHeaded { first: emoji, joined: Vec::new(), trailing: Vec::new() };
                    proof {
                        let added = flush(p, start as int, i as int);
                        assert(links_view(Seq::<ZwjLink>::empty()) =~= Seq::<Seq<Presentation>>::empty());
                        assert(joined_view(Seq::<ZwjJoinedEmoji>::empty()) =~= Seq::<JoinedModel>::empty());
                        assert forall|k: int| 0 <= k < done.len() + added.len() implies item_is(
                            s,
                            #[trigger] ready@[k],
                            (done + added)[k],
                        ) by {
                            if k >= done.len() {
                                assert(ready@[k] == ready@[old_ready.len() + (k - done.len())]);
                            }
                        }
                        assert(done + added + scan_from(s, e as int, i as int, pending@)
                            =~= done + scan_from(s, i as int, start as int, p));
                        done = done + added;
                    }
                    start = i;
                }
            },
            Token::Plain => {
                flush_pending(input, &offsets, &mut ready, pending, start, i);
                let item = make_item(input, &offsets, i, e, ScanKind::Passthrough);
                ready.push_back(item);
                pending = Pending::Empty;
                proof {
                    let added = flush(p, start as int, i as int) + seq![
                        ItemModel { start: i as int, end: e as int, kind: KindModel::Passthrough },
                    ];
                    assert forall|k: int| 0 <= k < done.len() + added.len() implies item_is(
                        s,
                        #[trigger] ready@[k],
                        (done + added)[k],
                    ) by {
                        if k >= done.len() + flush(p, start as int, i as int).len() {
                        } else if k >= done.len() {
                            assert(ready@[k] == ready@[old_ready.len() + (k - done.len())]);
                        }
                    }
                    assert(done + added + scan_from(s, e as int, e as int, PendingModel::Empty)
                        =~= done + scan_from(s, i as int, start as int, p));
                    done = done + added;
                }
                start = e;
            },
        }
        i = e;
    }
    let ghost p = pending@;
    let ghost old_ready = ready@;
    flush_pending(input, &offsets, &mut ready, pending, start, i);
    proof {
        let added = flush(p, start as int, i as int);
        assert forall|k: int| 0 <= k < done.len() + added.len() implies item_is(
            s,
            #[trigger] ready@[k],
            (done + added)[k],
        ) by {
            if k >= done.len() {
                assert(ready@[k] == ready@[old_ready.len() + (k - done.len())]);
            }
        }
        assert(done + added =~= scan_model(s));
    }
    Scanner { ready }
}

// --- The text each structure stands for ---

/// The text of a tag run: its tag characters and its selectors.
pub open spec fn tag_run_text(r: TagRunModel) -> Seq<char> {
    r.tag + selector_chars(r.selectors)
}

pub open spec fn tag_runs_text(runs: Seq<TagRunModel>) -> Seq<char>
    decreases runs.len(),
{
    if runs.len() == 0 {
        Seq::empty()
    } else {
        tag_run_text(runs[0]) + tag_runs_text(runs.drop_first())
    }
}

/// The text of a modification, selectors included.
pub open spec fn modification_text(m: ModificationModel) -> Seq<char> {
    match m {
        ModificationModel::EmojiModifier { modifier, selectors } => seq![modifier] + selector_chars(
            selectors,
        ),
        ModificationModel::EnclosingKeycap { selectors } => seq!['\u{20E3}'] + selector_chars(
            selectors,
        ),
        ModificationModel::TagModifier { runs } => tag_runs_text(runs),
    }
}

pub open spec fn modifications_text(ms: Seq<ModificationModel>) -> Seq<char>
    decreases ms.len(),
{
    if ms.len() == 0 {
        Seq::empty()
    } else {
        modification_text(ms[0]) + modifications_text(ms.drop_first())
    }
}

/// The text of a stem, selectors included.
pub open spec fn stem_text(st: StemModel) -> Seq<char> {
    match st {
        StemModel::SingletonBase { base, selectors } => seq![base] + selector_chars(selectors),
        StemModel::Flag { first_ri, first_selectors, second_ri, second_selectors } => seq![first_ri]
            + selector_chars(first_selectors) + seq![second_ri] + selector_chars(second_selectors),
    }
}

/// The text of an emoji-like unit.
pub open spec fn emoji_text(e: EmojiModel) -> Seq<char> {
    stem_text(e.stem) + modifications_text(e.modifiers)
}

/// The text of a ZWJ link: the joiner and the selectors after it.
pub open spec fn link_text(link: Seq<Presentation>) -> Seq<char> {
    seq!['\u{200D}'] + selector_chars(link)
}

pub open spec fn links_text(links: Seq<Seq<Presentation>>) -> Seq<char>
    decreases links.len(),
{
    if links.len() == 0 {
        Seq::empty()
    } else {
        links_text(links.drop_last()) + link_text(links.last())
    }
}

pub open spec fn joined_text(joined: Seq<JoinedModel>) -> Seq<char>
    decreases joined.len(),
{
    if joined.len() == 0 {
        Seq::empty()
    } else {
        joined_text(joined.drop_last()) + link_text(joined.last().link) + emoji_text(
            joined.last().emoji,
        )
    }
}

/// The text of an emoji sequence.
pub open spec fn sequence_text(sq: SequenceModel) -> Seq<char> {
    match sq {
        SequenceModel::LinksOnly { links } => links_text(links),
        SequenceModel::EmojiHeaded { first, joined, trailing } => emoji_text(first) + joined_text(
            joined,
        ) + links_text(trailing),
    }
}

/// The text of a pending sequence.
pub open spec fn pending_text(p: PendingModel) -> Seq<char> {
    match p {
        PendingModel::Empty => Seq::empty(),
        PendingModel::LinksOnly { links } => links_text(links),
        PendingModel::EmojiHeaded { first, joined, trailing } => emoji_text(first) + joined_text(
            joined,
        ) + links_text(trailing),
    }
}

/// Whether the model item `m` is well formed over `s`: it is not empty, and
/// its structure stands for exactly its text (a passthrough item holds no
/// character that a scanner branch classifies).
pub open spec fn item_wf(s: Seq<char>, m: ItemModel) -> bool {
    &&& 0 <= m.start < m.end <= s.len()
    &&& match m.kind {
        KindModel::Passthrough => forall|k: int|
            m.start <= k < m.end ==> !structural_char(#[trigger] s[k]),
        KindModel::Selectors { selectors } => selector_chars(selectors) == s.subrange(
            m.start,
            m.end,
        ),
        KindModel::Sequence { sequence } => sequence_text(sequence) == s.subrange(m.start, m.end),
    }
}

/// Whether `items` cover positions `from..to` of the text, in order and
/// without gaps.
pub open spec fn tiles(items: Seq<ItemModel>, from: int, to: int) -> bool
    decreases items.len(),
{
    if items.len() == 0 {
        from == to
    } else {
        items[0].start == from && tiles(items.drop_first(), items[0].end, to)
    }
}

/// The texts of `items`, joined in order.
pub open spec fn items_text(s: Seq<char>, items: Seq<ItemModel>) -> Seq<char>
    decreases items.len(),
{
    if items.len() == 0 {
        Seq::empty()
    } else {
        s.subrange(items[0].start, items[0].end) + items_text(s, items.drop_first())
    }
}

// --- Proofs that structures stand for their text ---

proof fn lemma_selectors_text(s: Seq<char>, i: int, j: int)
    requires
        0 <= i <= j <= s.len(),
        forall|k: int| i <= k < j ==> is_selector_char(#[trigger] s[k]),
    ensures
        selector_chars(presentations(s, i, j)) == s.subrange(i, j),
{
    assert(selector_chars(presentations(s, i, j)) =~= s.subrange(i, j));
}

pub(crate) proof fn lemma_selector_run_text(s: Seq<char>, i: int)
    requires
        0 <= i <= s.len(),
    ensures
        selector_chars(presentations(s, i, selector_end(s, i))) == s.subrange(i, selector_end(s, i)),
{
    lemma_run_end(s, i, RunClass::Selector);
    lemma_selectors_text(s, i, selector_end(s, i));
}

pub(crate) proof fn lemma_tag_runs_text(s: Seq<char>, i: int)
    requires
        0 <= i <= s.len(),
    ensures
        tag_runs_text(tag_runs_at(s, i).0) == s.subrange(i, tag_runs_at(s, i).1),
    decreases s.len() - i,
{
    if i < s.len() && tag_char(s[i]) {
        let te = run_end(s, i, RunClass::Tag);
        lemma_run_end(s, i, RunClass::Tag);
        lemma_selector_run_text(s, te);
        let se = selector_end(s, te);
        lemma_run_end(s, te, RunClass::Selector);
        lemma_tag_runs_text(s, se);
        lemma_tag_runs_at(s, se);
        let runs = tag_runs_at(s, i).0;
        assert(runs.drop_first() =~= tag_runs_at(s, se).0);
        assert(s.subrange(i, tag_runs_at(s, i).1) =~= s.subrange(i, te) + s.subrange(te, se)
            + s.subrange(se, tag_runs_at(s, se).1));
    } else {
        assert(s.subrange(i, i) =~= Seq::<char>::empty());
    }
}

pub(crate) proof fn lemma_modification_text(s: Seq<char>, i: int)
    requires
        0 <= i <= s.len(),
    ensures
        modification_at(s, i) matches Some((m, e)) ==> modification_text(m) == s.subrange(i, e),
{
    if i < s.len() {
        let c = s[i];
        if emoji_modifier_char(c) || c == '\u{20E3}' {
            lemma_selector_run_text(s, i + 1);
            lemma_run_end(s, i + 1, RunClass::Selector);
            assert(s.subrange(i, selector_end(s, i + 1)) =~= seq![c] + s.subrange(
                i + 1,
                selector_end(s, i + 1),
            ));
        } else if tag_char(c) {
            lemma_tag_runs_text(s, i);
        }
    }
}

pub(crate) proof fn lemma_modifications_text(s: Seq<char>, i: int)
    requires
        0 <= i <= s.len(),
    ensures
        modifications_text(modifications_at(s, i).0) == s.subrange(i, modifications_at(s, i).1),
    decreases s.len() - i,
{
    lemma_modification_at(s, i);
    lemma_modification_text(s, i);
    match modification_at(s, i) {
        Some((m, e)) => {
            lemma_modifications_text(s, e);
            lemma_modifications_at(s, e);
            let ms = modifications_at(s, i).0;
            assert(ms.drop_first() =~= modifications_at(s, e).0);
            assert(s.subrange(i, modifications_at(s, i).1) =~= s.subrange(i, e) + s.subrange(
                e,
                modifications_at(s, e).1,
            ));
        },
        None => {
            assert(s.subrange(i, i) =~= Seq::<char>::empty());
        },
    }
}

pub(crate) proof fn lemma_stem_text(s: Seq<char>, i: int)
    requires
        0 <= i < s.len(),
    ensures
        stem_text(stem_at(s, i).0) == s.subrange(i, stem_at(s, i).1),
{
    lemma_run_end(s, i + 1, RunClass::Selector);
    lemma_selector_run_text(s, i + 1);
    let e1 = selector_end(s, i + 1);
    if regional_indicator_char(s[i]) && e1 < s.len() && regional_indicator_char(s[e1]) {
        lemma_run_end(s, e1 + 1, RunClass::Selector);
        lemma_selector_run_text(s, e1 + 1);
        let e2 = selector_end(s, e1 + 1);
        assert(s.subrange(i, e2) =~= seq![s[i]] + s.subrange(i + 1, e1) + seq![s[e1]]
            + s.subrange(e1 + 1, e2));
    } else {
        assert(s.subrange(i, e1) =~= seq![s[i]] + s.subrange(i + 1, e1));
    }
}

pub(crate) proof fn lemma_emoji_token_text(s: Seq<char>, i: int)
    requires
        0 <= i < s.len(),
    ensures
        emoji_text(
            EmojiModel { stem: stem_at(s, i).0, modifiers: modifications_at(s, stem_at(s, i).1).0 },
        ) == s.subrange(i, modifications_at(s, stem_at(s, i).1).1),
{
    lemma_stem_at(s, i);
    lemma_stem_text(s, i);
    let e = stem_at(s, i).1;
    lemma_modifications_text(s, e);
    lemma_modifications_at(s, e);
    assert(s.subrange(i, modifications_at(s, e).1) =~= s.subrange(i, e) + s.subrange(
        e,
        modifications_at(s, e).1,
    ));
}

pub(crate) proof fn lemma_link_token_text(s: Seq<char>, i: int)
    requires
        0 <= i < s.len(),
        s[i] == '\u{200D}',
    ensures
        link_text(presentations(s, i + 1, selector_end(s, i + 1))) == s.subrange(
            i,
            selector_end(s, i + 1),
        ),
{
    lemma_run_end(s, i + 1, RunClass::Selector);
    lemma_selector_run_text(s, i + 1);
    assert(s.subrange(i, selector_end(s, i + 1)) =~= seq![s[i]] + s.subrange(
        i + 1,
        selector_end(s, i + 1),
    ));
}

proof fn lemma_tiles_concat(a: Seq<ItemModel>, b: Seq<ItemModel>, from: int, mid: int, to: int)
    requires
        tiles(a, from, mid),
        tiles(b, mid, to),
    ensures
        tiles(a + b, from, to),
    decreases a.len(),
{
    if a.len() == 0 {
        assert(a + b =~= b);
    } else {
        lemma_tiles_concat(a.drop_first(), b, a[0].end, mid, to);
        assert((a + b).drop_first() =~= a.drop_first() + b);
    }
}

/// Whether `items` all satisfy [`item_wf`] over `s`.
pub open spec fn all_wf(s: Seq<char>, items: Seq<ItemModel>) -> bool {
    forall|k: int| 0 <= k < items.len() ==> item_wf(s, #[trigger] items[k])
}

/// The pending sequence started at `start` stands for the text up to `i`.
pub open spec fn pending_wf(s: Seq<char>, i: int, start: int, p: PendingModel) -> bool {
    &&& 0 <= start <= i <= s.len()
    &&& (p is Empty) == (start == i)
    &&& pending_text(p) == s.subrange(start, i)
}

proof fn lemma_flush_wf(s: Seq<char>, i: int, start: int, p: PendingModel)
    requires
        pending_wf(s, i, start, p),
    ensures
        all_wf(s, flush(p, start, i)),
        tiles(flush(p, start, i), start, i),
{
    let f = flush(p, start, i);
    if f.len() > 0 {
        assert(f.drop_first() =~= Seq::<ItemModel>::empty());
        assert(tiles(f.drop_first(), i, i));
    }
}

pub(crate) proof fn lemma_push_link_text(p: PendingModel, link: Seq<Presentation>)
    ensures
        pending_text(push_link(p, link)) == pending_text(p) + link_text(link),
{
    match p {
        PendingModel::Empty => {
            let links = seq![link];
            assert(links.drop_last() =~= Seq::<Seq<Presentation>>::empty());
            assert(links_text(links.drop_last()) =~= Seq::<char>::empty());
            assert(pending_text(push_link(p, link)) =~= pending_text(p) + link_text(link));
        },
        PendingModel::LinksOnly { links } => {
            assert(links.push(link).drop_last() =~= links);
        },
        PendingModel::EmojiHeaded { first, joined, trailing } => {
            assert(trailing.push(link).drop_last() =~= trailing);
            assert(links_text(trailing.push(link)) =~= links_text(trailing) + link_text(link));
            assert(pending_text(push_link(p, link)) =~= pending_text(p) + link_text(link));
        },
    }
}

pub(crate) proof fn lemma_join_text(p: PendingModel, emoji: EmojiModel)
    requires
        awaits_emoji(p),
    ensures
        pending_text(join_emoji(p, emoji)) == pending_text(p) + emoji_text(emoji),
{
    match p {
        PendingModel::EmojiHeaded { first, joined, trailing } => {
            let j = JoinedModel { link: trailing[0], emoji };
            assert(joined.push(j).drop_last() =~= joined);
            assert(trailing.drop_last() =~= Seq::<Seq<Presentation>>::empty());
            assert(links_text(trailing.drop_last()) =~= Seq::<char>::empty());
            assert(links_text(trailing) =~= link_text(trailing[0]));
            assert(links_text(Seq::<Seq<Presentation>>::empty()) =~= Seq::<char>::empty());
            assert(pending_text(join_emoji(p, emoji)) =~= pending_text(p) + emoji_text(emoji));
        },
        _ => {},
    }
}

proof fn lemma_scan_from_wf(s: Seq<char>, i: int, start: int, p: PendingModel)
    requires
        pending_wf(s, i, start, p),
    ensures
        all_wf(s, scan_from(s, i, start, p)),
        tiles(scan_from(s, i, start, p), start, s.len() as int),
    decreases s.len() - i,
{
    lemma_flush_wf(s, i, start, p);
    if i < s.len() {
        lemma_token_at(s, i);
        let t = token_at(s, i);
        let e = t.1;
        let c = s[i];
        match t.0 {
            TokenModel::Link { selectors } => {
                lemma_link_token_text(s, i);
                let q = push_link(p, selectors);
                lemma_push_link_text(p, selectors);
                assert(s.subrange(start, e) =~= s.subrange(start, i) + s.subrange(i, e));
                lemma_scan_from_wf(s, e, start, q);
            },
            TokenModel::Selectors { selectors } => {
                lemma_run_end(s, i, RunClass::Selector);
                lemma_selector_run_text(s, i);
                let item = ItemModel { start: i, end: e, kind: KindModel::Selectors { selectors } };
                assert(s.subrange(e, e) =~= Seq::<char>::empty());
                lemma_scan_from_wf(s, e, e, PendingModel::Empty);
                let rest = scan_from(s, e, e, PendingModel::Empty);
                assert(tiles(seq![item], i, e)) by {
                    assert(seq![item].drop_first() =~= Seq::<ItemModel>::empty());
                    assert(tiles(seq![item].drop_first(), e, e));
                }
                lemma_tiles_concat(seq![item], rest, i, e, s.len() as int);
                lemma_tiles_concat(flush(p, start, i), seq![item] + rest, start, i, s.len() as int);
                assert(flush(p, start, i) + seq![item] + rest =~= flush(p, start, i) + (seq![item]
                    + rest));
            },
            TokenModel::Emoji { emoji } => {
                lemma_emoji_token_text(s, i);
                if awaits_emoji(p) {
                    let q = join_emoji(p, emoji);
                    lemma_join_text(p, emoji);
                    assert(s.subrange(start, e) =~= s.subrange(start, i) + s.subrange(i, e));
                    lemma_scan_from_wf(s, e, start, q);
                } else {
                    let q = PendingModel::EmojiHeaded {
                        first: emoji,
                        joined: Seq::empty(),
                        trailing: Seq::empty(),
                    };
                    assert(pending_text(q) =~= s.subrange(i, e)) by {
                        assert(joined_text(Seq::<JoinedModel>::empty()) =~= Seq::<char>::empty());
                        assert(links_text(Seq::<Seq<Presentation>>::empty()) =~= Seq::<char>::empty());
                    }
                    lemma_scan_from_wf(s, e, i, q);
                    lemma_tiles_concat(
                        flush(p, start, i),
                        scan_from(s, e, i, q),
                        start,
                        i,
                        s.len() as int,
                    );
                }
            },
            TokenModel::Plain => {
                lemma_run_end(s, i, RunClass::NonStructural);
                let item = ItemModel { start: i, end: e, kind: KindModel::Passthrough };
                assert(s.subrange(e, e) =~= Seq::<char>::empty());
                lemma_scan_from_wf(s, e, e, PendingModel::Empty);
                let rest = scan_from(s, e, e, PendingModel::Empty);
                assert(tiles(seq![item], i, e)) by {
                    assert(seq![item].drop_first() =~= Seq::<ItemModel>::empty());
                    assert(tiles(seq![item].drop_first(), e, e));
                }
                lemma_tiles_concat(seq![item], rest, i, e, s.len() as int);
                lemma_tiles_concat(flush(p, start, i), seq![item] + rest, start, i, s.len() as int);
                assert(flush(p, start, i) + seq![item] + rest =~= flush(p, start, i) + (seq![item]
                    + rest));
            },
        }
    }
}

proof fn lemma_items_text(s: Seq<char>, items: Seq<ItemModel>, from: int, to: int)
    requires
        tiles(items, from, to),
        all_wf(s, items),
        0 <= from <= s.len(),
    ensures
        items_text(s, items) == s.subrange(from, to),
        from <= to <= s.len(),
    decreases items.len(),
{
    if items.len() == 0 {
        assert(s.subrange(from, from) =~= Seq::<char>::empty());
    } else {
        assert(item_wf(s, items[0]));
        assert forall|k: int| 0 <= k < items.drop_first().len() implies item_wf(
            s,
            #[trigger] items.drop_first()[k],
        ) by {
            assert(items.drop_first()[k] == items[k + 1]);
        }
        lemma_items_text(s, items.drop_first(), items[0].end, to);
        assert(s.subrange(from, to) =~= s.subrange(from, items[0].end) + s.subrange(
            items[0].end,
            to,
        ));
    }
}

/// Scanning is lossless and structural: the items are non-empty, cover the
/// text in order without gaps, so their texts joined give the text back,
/// each item's structure spells out exactly its text, and passthrough items
/// hold no character that the scanner classifies.
pub proof fn lemma_scan_lossless(s: Seq<char>)
    ensures
        tiles(scan_model(s), 0, s.len() as int),
        all_wf(s, scan_model(s)),
        items_text(s, scan_model(s)) == s,
{
    assert(s.subrange(0, 0) =~= Seq::<char>::empty());
    lemma_scan_from_wf(s, 0, 0, PendingModel::Empty);
    lemma_items_text(s, scan_model(s), 0, s.len() as int);
    assert(s.subrange(0, s.len() as int) =~= s);
}

} // verus!
