//! Proofs about scanning formatted text.
//!
//! Formatting writes, token by token, the default rendering of each scanned
//! structure ([`tokens_output`]). Scanning that output again yields only
//! canonical tokens: plain text, bare ZWJ links, and emoji whose analysis
//! counts nothing. So no item of the rescan has a finding.

use vstd::prelude::*;

use crate::analysis::{
    base_outcome, component_analysis, concat_analysis, empty_analysis, first_modification, is_zero,
    item_analysis, joined_analysis, lemma_concat_assoc, lemma_concat_empty, lemma_fixed_accounted,
    lemma_render_default_concat, link_analysis, links_analysis, modifications_selector_count,
    outcome_counts, presentation_run, presentation_text, render_default, render_flag,
    render_singleton, sequence_analysis, stripped_modification_text, stripped_modifications_text,
    tag_chars_text, tag_selector_count, unsanctioned, AnalysisModel, BaseOutcome,
};
use crate::formatter::{item_output, items_output};
use crate::policy::Policy;
use crate::presentation::{is_selector_char, selector_char, selector_chars, Presentation};
use crate::scanner::{
    awaits_emoji, emoji_text, flush, in_class, join_emoji, joined_text, link_text, links_text,
    modification_at, modification_text, modifications_at, modifications_text, pending_text,
    pending_wf, presentations, push_link, run_end, scan_from, selector_end, sequence_text, stem_at,
    structural_char, tag_run_text, tag_runs_at, tag_runs_text, token_at, EmojiModel, ItemModel,
    JoinedModel, KindModel, ModificationModel, PendingModel, RunClass, SequenceModel, StemModel,
    TagRunModel, TokenModel,
};
use crate::unicode::{emoji_char, emoji_modifier_char, regional_indicator_char, tag_char};

verus! {

// --- Scanning does not look behind its position ---

pub(crate) proof fn lemma_run_end_shift(x: Seq<char>, y: Seq<char>, j: int, class: RunClass)
    requires
        0 <= j <= y.len(),
    ensures
        run_end(x + y, x.len() + j, class) == x.len() + run_end(y, j, class),
    decreases y.len() - j,
{
    if j < y.len() {
        assert((x + y)[x.len() + j] == y[j]);
        lemma_run_end_shift(x, y, j + 1, class);
    }
}

pub(crate) proof fn lemma_presentations_shift(x: Seq<char>, y: Seq<char>, a: int, b: int)
    requires
        0 <= a <= b <= y.len(),
    ensures
        presentations(x + y, x.len() + a, x.len() + b) == presentations(y, a, b),
{
    assert forall|k: int| 0 <= k < b - a implies (x + y)[x.len() + a + k] == #[trigger] y[a + k] by {}
    assert(presentations(x + y, x.len() + a, x.len() + b) =~= presentations(y, a, b));
}

pub(crate) proof fn lemma_tag_runs_shift(x: Seq<char>, y: Seq<char>, j: int)
    requires
        0 <= j <= y.len(),
    ensures
        tag_runs_at(x + y, x.len() + j).0 == tag_runs_at(y, j).0,
        tag_runs_at(x + y, x.len() + j).1 == x.len() + tag_runs_at(y, j).1,
    decreases y.len() - j,
{
    let s = x + y;
    let i = x.len() + j;
    if j < y.len() {
        assert(s[i] == y[j]);
        if crate::unicode::tag_char(y[j]) {
            crate::scanner::lemma_run_end(y, j, RunClass::Tag);
            lemma_run_end_shift(x, y, j, RunClass::Tag);
            let te = run_end(y, j, RunClass::Tag);
            crate::scanner::lemma_run_end(y, te, RunClass::Selector);
            lemma_run_end_shift(x, y, te, RunClass::Selector);
            let se = selector_end(y, te);
            lemma_presentations_shift(x, y, te, se);
            lemma_tag_runs_shift(x, y, se);
            assert(s.subrange(i, x.len() + te) =~= y.subrange(j, te));
        }
    }
}

pub(crate) proof fn lemma_modification_shift(x: Seq<char>, y: Seq<char>, j: int)
    requires
        0 <= j <= y.len(),
    ensures
        match modification_at(y, j) {
            Some((m, e)) => modification_at(x + y, x.len() + j) == Some((m, x.len() + e)),
            None => modification_at(x + y, x.len() + j) is None,
        },
{
    let s = x + y;
    let i = x.len() + j;
    if j < y.len() {
        assert(s[i] == y[j]);
        crate::scanner::lemma_run_end(y, j + 1, RunClass::Selector);
        lemma_run_end_shift(x, y, j + 1, RunClass::Selector);
        lemma_presentations_shift(x, y, j + 1, selector_end(y, j + 1));
        lemma_tag_runs_shift(x, y, j);
    }
}

pub(crate) proof fn lemma_modifications_shift(x: Seq<char>, y: Seq<char>, j: int)
    requires
        0 <= j <= y.len(),
    ensures
        modifications_at(x + y, x.len() + j).0 == modifications_at(y, j).0,
        modifications_at(x + y, x.len() + j).1 == x.len() + modifications_at(y, j).1,
    decreases y.len() - j,
{
    lemma_modification_shift(x, y, j);
    crate::scanner::lemma_modification_at(y, j);
    match modification_at(y, j) {
        Some((m, e)) => {
            lemma_modifications_shift(x, y, e);
        },
        None => {},
    }
}

pub(crate) proof fn lemma_stem_shift(x: Seq<char>, y: Seq<char>, j: int)
    requires
        0 <= j < y.len(),
    ensures
        stem_at(x + y, x.len() + j).0 == stem_at(y, j).0,
        stem_at(x + y, x.len() + j).1 == x.len() + stem_at(y, j).1,
{
    let s = x + y;
    assert(s[x.len() + j] == y[j]);
    crate::scanner::lemma_run_end(y, j + 1, RunClass::Selector);
    lemma_run_end_shift(x, y, j + 1, RunClass::Selector);
    let e1 = selector_end(y, j + 1);
    lemma_presentations_shift(x, y, j + 1, e1);
    if e1 < y.len() {
        assert(s[x.len() + e1] == y[e1]);
        crate::scanner::lemma_run_end(y, e1 + 1, RunClass::Selector);
        lemma_run_end_shift(x, y, e1 + 1, RunClass::Selector);
        lemma_presentations_shift(x, y, e1 + 1, selector_end(y, e1 + 1));
    }
}

/// The token at a position depends only on the text from that position on.
pub(crate) proof fn lemma_token_shift(x: Seq<char>, y: Seq<char>, j: int)
    requires
        0 <= j < y.len(),
    ensures
        token_at(x + y, x.len() + j).0 == token_at(y, j).0,
        token_at(x + y, x.len() + j).1 == x.len() + token_at(y, j).1,
{
    let s = x + y;
    let i = x.len() + j;
    assert(s[i] == y[j]);
    crate::scanner::lemma_run_end(y, j + 1, RunClass::Selector);
    lemma_run_end_shift(x, y, j + 1, RunClass::Selector);
    lemma_presentations_shift(x, y, j + 1, selector_end(y, j + 1));
    crate::scanner::lemma_run_end(y, j, RunClass::Selector);
    lemma_run_end_shift(x, y, j, RunClass::Selector);
    lemma_presentations_shift(x, y, j, selector_end(y, j));
    lemma_run_end_shift(x, y, j, RunClass::NonStructural);
    lemma_stem_shift(x, y, j);
    crate::scanner::lemma_stem_at(y, j);
    lemma_modifications_shift(x, y, stem_at(y, j).1);
}

// --- Pending sequences ---

/// The analysis of a pending sequence.
pub(crate) open spec fn pending_analysis(p: PendingModel, policy: Policy) -> AnalysisModel {
    match p {
        PendingModel::Empty => empty_analysis(),
        PendingModel::LinksOnly { links } => links_analysis(links),
        PendingModel::EmojiHeaded { first, joined, trailing } => sequence_analysis(
            SequenceModel::EmojiHeaded { first, joined, trailing },
            policy,
        ),
    }
}

pub(crate) proof fn lemma_push_link_analysis(p: PendingModel, l: Seq<Presentation>, policy: Policy)
    ensures
        pending_analysis(push_link(p, l), policy) == concat_analysis(
            pending_analysis(p, policy),
            link_analysis(l),
        ),
{
    match p {
        PendingModel::Empty => {
            let links = seq![l];
            assert(links.drop_last() =~= Seq::<Seq<Presentation>>::empty());
            assert(links.last() == l);
            assert(links_analysis(links) == concat_analysis(
                links_analysis(links.drop_last()),
                link_analysis(links.last()),
            ));
            lemma_concat_empty(link_analysis(l));
        },
        PendingModel::LinksOnly { links } => {
            assert(links.push(l).drop_last() =~= links);
        },
        PendingModel::EmojiHeaded { first, joined, trailing } => {
            assert(trailing.push(l).drop_last() =~= trailing);
            lemma_concat_assoc(
                concat_analysis(
                    component_analysis(first, policy),
                    crate::analysis::joined_analysis(joined, policy),
                ),
                links_analysis(trailing),
                link_analysis(l),
            );
        },
    }
}

pub(crate) proof fn lemma_join_analysis(p: PendingModel, e: EmojiModel, policy: Policy)
    requires
        awaits_emoji(p),
    ensures
        pending_analysis(join_emoji(p, e), policy) == concat_analysis(
            pending_analysis(p, policy),
            component_analysis(e, policy),
        ),
{
    match p {
        PendingModel::EmojiHeaded { first, joined, trailing } => {
            let l = trailing[0];
            let j = JoinedModel { link: l, emoji: e };
            let c = component_analysis(first, policy);
            let ja = crate::analysis::joined_analysis(joined, policy);
            assert(joined.push(j).drop_last() =~= joined);
            assert(trailing.drop_last() =~= Seq::<Seq<Presentation>>::empty());
            lemma_concat_empty(link_analysis(l));
            assert(trailing.last() == l);
            assert(links_analysis(trailing) == concat_analysis(
                links_analysis(trailing.drop_last()),
                link_analysis(trailing.last()),
            ));
            assert(links_analysis(trailing) == link_analysis(l));
            lemma_concat_empty(concat_analysis(c, concat_analysis(concat_analysis(ja, link_analysis(l)), component_analysis(e, policy))));
            lemma_concat_assoc(c, concat_analysis(ja, link_analysis(l)), component_analysis(e, policy));
            lemma_concat_assoc(c, ja, link_analysis(l));
        },
        _ => {},
    }
}

// --- Canonical tokens give no findings ---

/// Whether a token is canonical: plain text, a bare link, or an emoji whose
/// analysis counts nothing.
pub(crate) open spec fn token_canonical(t: TokenModel, policy: Policy) -> bool {
    match t {
        TokenModel::Link { selectors } => selectors.len() == 0,
        TokenModel::Selectors { .. } => false,
        TokenModel::Emoji { emoji } => is_zero(component_analysis(emoji, policy).counts),
        TokenModel::Plain => true,
    }
}

/// Whether every token from position `j` of `u` on is canonical.
pub(crate) open spec fn tokens_canonical(u: Seq<char>, j: int, policy: Policy) -> bool
    decreases u.len() - j,
{
    if 0 <= j < u.len() {
        proof {
            crate::scanner::lemma_token_at(u, j);
        }
        token_canonical(token_at(u, j).0, policy) && tokens_canonical(u, token_at(u, j).1, policy)
    } else {
        true
    }
}

/// Whether no item has a finding.
pub(crate) open spec fn no_findings(items: Seq<ItemModel>, policy: Policy) -> bool {
    forall|k: int| 0 <= k < items.len() ==> (#[trigger] item_analysis(items[k].kind, policy)) is None
}

proof fn lemma_no_findings_concat(a: Seq<ItemModel>, b: Seq<ItemModel>, policy: Policy)
    requires
        no_findings(a, policy),
        no_findings(b, policy),
    ensures
        no_findings(a + b, policy),
{
    assert forall|k: int| 0 <= k < (a + b).len() implies (#[trigger] item_analysis(
        (a + b)[k].kind,
        policy,
    )) is None by {
        if k < a.len() {
            assert((a + b)[k] == a[k]);
        } else {
            assert((a + b)[k] == b[k - a.len()]);
        }
    }
}

proof fn lemma_flush_no_findings(q: PendingModel, st: int, j: int, policy: Policy)
    requires
        is_zero(pending_analysis(q, policy).counts),
    ensures
        no_findings(flush(q, st, j), policy),
{
}

/// Scanning canonical tokens, with a pending sequence that counts nothing,
/// yields items without findings.
pub(crate) proof fn lemma_canonical_scan(u: Seq<char>, j: int, st: int, q: PendingModel, policy: Policy)
    requires
        0 <= j,
        tokens_canonical(u, j, policy),
        is_zero(pending_analysis(q, policy).counts),
    ensures
        no_findings(scan_from(u, j, st, q), policy),
    decreases u.len() - j,
{
    lemma_flush_no_findings(q, st, j, policy);
    if j < u.len() {
        crate::scanner::lemma_token_at(u, j);
        let t = token_at(u, j);
        let e = t.1;
        match t.0 {
            TokenModel::Link { selectors } => {
                lemma_push_link_analysis(q, selectors, policy);
                lemma_canonical_scan(u, e, st, push_link(q, selectors), policy);
            },
            TokenModel::Selectors { .. } => {},
            TokenModel::Emoji { emoji } => {
                if awaits_emoji(q) {
                    lemma_join_analysis(q, emoji, policy);
                    lemma_canonical_scan(u, e, st, join_emoji(q, emoji), policy);
                } else {
                    let q2 = PendingModel::EmojiHeaded {
                        first: emoji,
                        joined: Seq::empty(),
                        trailing: Seq::empty(),
                    };
                    lemma_canonical_scan(u, e, j, q2, policy);
                    lemma_no_findings_concat(flush(q, st, j), scan_from(u, e, j, q2), policy);
                }
            },
            TokenModel::Plain => {
                let item = ItemModel { start: j, end: e, kind: KindModel::Passthrough };
                lemma_canonical_scan(u, e, e, PendingModel::Empty, policy);
                lemma_no_findings_concat(flush(q, st, j), seq![item], policy);
                lemma_no_findings_concat(
                    flush(q, st, j) + seq![item],
                    scan_from(u, e, e, PendingModel::Empty),
                    policy,
                );
            },
        }
    }
}

// --- What formatting writes, token by token ---

/// What formatting writes for one token with text `raw`: plain text as it
/// is, nothing for a selector run, a bare joiner for a link, and the default
/// rendering of an emoji.
pub(crate) open spec fn token_output(t: TokenModel, raw: Seq<char>, policy: Policy) -> Seq<char> {
    match t {
        TokenModel::Link { .. } => seq!['\u{200D}'],
        TokenModel::Selectors { .. } => Seq::empty(),
        TokenModel::Emoji { emoji } => render_default(component_analysis(emoji, policy).elements),
        TokenModel::Plain => raw,
    }
}

/// What formatting writes for the tokens from position `i` of `s` on.
pub(crate) open spec fn tokens_output(s: Seq<char>, i: int, policy: Policy) -> Seq<char>
    decreases s.len() - i,
{
    if 0 <= i < s.len() {
        proof {
            crate::scanner::lemma_token_at(s, i);
        }
        token_output(token_at(s, i).0, s.subrange(i, token_at(s, i).1), policy) + tokens_output(
            s,
            token_at(s, i).1,
            policy,
        )
    } else {
        Seq::empty()
    }
}

proof fn lemma_zero_tag_runs(runs: Seq<TagRunModel>)
    requires
        tag_selector_count(runs) == 0,
    ensures
        tag_runs_text(runs) == tag_chars_text(runs),
    decreases runs.len(),
{
    if runs.len() > 0 {
        lemma_zero_tag_runs(runs.drop_first());
        assert(selector_chars(runs[0].selectors) =~= Seq::<char>::empty());
        assert(tag_run_text(runs[0]) =~= runs[0].tag);
    }
}

proof fn lemma_zero_modifications(ms: Seq<ModificationModel>)
    requires
        modifications_selector_count(ms) == 0,
    ensures
        stripped_modifications_text(ms) == modifications_text(ms),
    decreases ms.len(),
{
    if ms.len() > 0 {
        lemma_zero_modifications(ms.drop_first());
        match ms[0] {
            ModificationModel::EmojiModifier { modifier, selectors } => {
                assert(selector_chars(selectors) =~= Seq::<char>::empty());
                assert(modification_text(ms[0]) =~= seq![modifier]);
            },
            ModificationModel::EnclosingKeycap { selectors } => {
                assert(selector_chars(selectors) =~= Seq::<char>::empty());
                assert(modification_text(ms[0]) =~= seq!['\u{20E3}']);
            },
            ModificationModel::TagModifier { runs } => {
                lemma_zero_tag_runs(runs);
            },
        }
    }
}

proof fn lemma_zero_outcome(
    base: char,
    sels: Seq<Presentation>,
    first: Option<ModificationModel>,
    policy: Policy,
)
    requires
        is_zero(outcome_counts(base_outcome(base, sels, first, policy))),
    ensures
        base_outcome(base, sels, first, policy) matches BaseOutcome::Deterministic { canonical, .. }
            && presentation_text(canonical) == selector_chars(sels),
{
    assert(sels.take(sels.len() as int) =~= sels);
    if sels.len() == 0 {
        assert(selector_chars(sels) =~= Seq::<char>::empty());
    } else if sels.len() == 1 {
        assert(selector_chars(sels) =~= seq![crate::presentation::selector_char(sels[0])]);
        assert(sels =~= seq![sels[0]]);
    }
    if let Some(ModificationModel::TagModifier { .. }) = first {
        if crate::unicode::has_vs(base) {
            let canonical = if crate::unicode::emoji_default(base) {
                None
            } else {
                Some(Presentation::Emoji)
            };
            let c = crate::analysis::presentation_run(canonical);
            if sels.len() == c.len() {
                assert(sels.take(c.len() as int) == sels);
            }
            if c.len() == 0 && sels.len() == 0 {
                assert(sels =~= c);
            }
        }
    }
}

/// An emoji whose analysis counts nothing renders as its own text.
pub(crate) proof fn lemma_zero_component(e: EmojiModel, policy: Policy)
    requires
        is_zero(component_analysis(e, policy).counts),
    ensures
        render_default(component_analysis(e, policy).elements) == emoji_text(e),
{
    let ms = e.modifiers;
    let a = component_analysis(e, policy);
    lemma_zero_modifications(ms);
    match e.stem {
        StemModel::SingletonBase { base, selectors } => {
            lemma_zero_outcome(base, selectors, first_modification(ms), policy);
            match base_outcome(base, selectors, first_modification(ms), policy) {
                BaseOutcome::Deterministic { canonical, counts } => {
                    lemma_fixed_accounted(a.counts, crate::analysis::render_singleton(base, canonical, ms));
                    assert(emoji_text(e) =~= seq![base] + selector_chars(selectors) + modifications_text(ms));
                },
                _ => {},
            }
        },
        StemModel::Flag { first_ri, first_selectors, second_ri, second_selectors } => {
            lemma_fixed_accounted(a.counts, crate::analysis::render_flag(first_ri, second_ri, ms));
            assert(selector_chars(first_selectors) =~= Seq::<char>::empty());
            assert(selector_chars(second_selectors) =~= Seq::<char>::empty());
            assert(emoji_text(e) =~= seq![first_ri, second_ri] + modifications_text(ms));
        },
    }
}

proof fn lemma_zero_link(l: Seq<Presentation>)
    requires
        is_zero(link_analysis(l).counts),
    ensures
        render_default(link_analysis(l).elements) == link_text(l),
{
    lemma_fixed_accounted(link_analysis(l).counts, seq!['\u{200D}']);
    assert(selector_chars(l) =~= Seq::<char>::empty());
    assert(link_text(l) =~= seq!['\u{200D}']);
}

proof fn lemma_zero_links(links: Seq<Seq<Presentation>>)
    requires
        is_zero(links_analysis(links).counts),
    ensures
        render_default(links_analysis(links).elements) == links_text(links),
    decreases links.len(),
{
    if links.len() > 0 {
        lemma_zero_links(links.drop_last());
        lemma_zero_link(links.last());
        lemma_render_default_concat(
            links_analysis(links.drop_last()).elements,
            link_analysis(links.last()).elements,
        );
    }
}

proof fn lemma_zero_joined(joined: Seq<JoinedModel>, policy: Policy)
    requires
        is_zero(joined_analysis(joined, policy).counts),
    ensures
        render_default(joined_analysis(joined, policy).elements) == joined_text(joined),
    decreases joined.len(),
{
    if joined.len() > 0 {
        let j = joined.last();
        lemma_zero_joined(joined.drop_last(), policy);
        lemma_zero_link(j.link);
        lemma_zero_component(j.emoji, policy);
        lemma_render_default_concat(
            joined_analysis(joined.drop_last(), policy).elements,
            link_analysis(j.link).elements,
        );
        lemma_render_default_concat(
            concat_analysis(joined_analysis(joined.drop_last(), policy), link_analysis(j.link)).elements,
            component_analysis(j.emoji, policy).elements,
        );
    }
}

/// A sequence whose analysis counts nothing renders as its own text.
pub(crate) proof fn lemma_zero_sequence(sq: SequenceModel, policy: Policy)
    requires
        is_zero(sequence_analysis(sq, policy).counts),
    ensures
        render_default(sequence_analysis(sq, policy).elements) == sequence_text(sq),
{
    match sq {
        SequenceModel::LinksOnly { links } => lemma_zero_links(links),
        SequenceModel::EmojiHeaded { first, joined, trailing } => {
            lemma_zero_component(first, policy);
            lemma_zero_joined(joined, policy);
            lemma_zero_links(trailing);
            lemma_render_default_concat(
                component_analysis(first, policy).elements,
                joined_analysis(joined, policy).elements,
            );
            lemma_render_default_concat(
                concat_analysis(component_analysis(first, policy), joined_analysis(joined, policy)).elements,
                links_analysis(trailing).elements,
            );
        },
    }
}

proof fn lemma_items_output_concat(s: Seq<char>, a: Seq<ItemModel>, b: Seq<ItemModel>, policy: Policy)
    ensures
        items_output(s, a + b, policy) == items_output(s, a, policy) + items_output(s, b, policy),
    decreases b.len(),
{
    if b.len() == 0 {
        assert(a + b =~= a);
        assert(items_output(s, a, policy) + items_output(s, b, policy) =~= items_output(s, a, policy));
    } else {
        lemma_items_output_concat(s, a, b.drop_last(), policy);
        assert((a + b).drop_last() =~= a + b.drop_last());
        assert((a + b).last() == b.last());
        assert(items_output(s, a + b, policy) =~= items_output(s, a, policy) + items_output(
            s,
            b,
            policy,
        ));
    }
}

proof fn lemma_single_output(s: Seq<char>, m: ItemModel, policy: Policy)
    ensures
        items_output(s, seq![m], policy) == item_output(s, m, policy),
{
    assert(seq![m].drop_last() =~= Seq::<ItemModel>::empty());
    assert(items_output(s, seq![m].drop_last(), policy) =~= Seq::<char>::empty());
    assert(items_output(s, seq![m], policy) =~= item_output(s, m, policy));
}

/// Flushing a pending sequence writes its default rendering.
proof fn lemma_flush_output(s: Seq<char>, i: int, start: int, p: PendingModel, policy: Policy)
    requires
        pending_wf(s, i, start, p),
    ensures
        items_output(s, flush(p, start, i), policy) == render_default(
            pending_analysis(p, policy).elements,
        ),
{
    match p {
        PendingModel::Empty => {},
        PendingModel::LinksOnly { links } => {
            let m = flush(p, start, i)[0];
            assert(flush(p, start, i) == seq![m]);
            lemma_single_output(s, m, policy);
            if is_zero(links_analysis(links).counts) {
                lemma_zero_sequence(SequenceModel::LinksOnly { links }, policy);
            }
        },
        PendingModel::EmojiHeaded { first, joined, trailing } => {
            let m = flush(p, start, i)[0];
            assert(flush(p, start, i) == seq![m]);
            lemma_single_output(s, m, policy);
            let sq = SequenceModel::EmojiHeaded { first, joined, trailing };
            if is_zero(sequence_analysis(sq, policy).counts) {
                lemma_zero_sequence(sq, policy);
            }
        },
    }
}

proof fn lemma_render_concat(a: AnalysisModel, b: AnalysisModel)
    ensures
        render_default(concat_analysis(a, b).elements) == render_default(a.elements)
            + render_default(b.elements),
{
    lemma_render_default_concat(a.elements, b.elements);
}

/// What formatting writes for the items scanned from position `i` on: the
/// pending sequence's default rendering, then each token's output.
#[verifier::spinoff_prover]
#[verifier::rlimit(50)]
pub(crate) proof fn lemma_items_output_tokens(
    s: Seq<char>,
    i: int,
    start: int,
    p: PendingModel,
    policy: Policy,
)
    requires
        pending_wf(s, i, start, p),
    ensures
        items_output(s, scan_from(s, i, start, p), policy) == render_default(
            pending_analysis(p, policy).elements,
        ) + tokens_output(s, i, policy),
    decreases s.len() - i,
{
    lemma_flush_output(s, i, start, p, policy);
    let r = render_default(pending_analysis(p, policy).elements);
    if i < s.len() {
        crate::scanner::lemma_token_at(s, i);
        let t = token_at(s, i);
        let e = t.1;
        match t.0 {
            TokenModel::Link { selectors } => {
                crate::scanner::lemma_link_token_text(s, i);
                let q = push_link(p, selectors);
                crate::scanner::lemma_push_link_text(p, selectors);
                assert(s.subrange(start, e) =~= s.subrange(start, i) + s.subrange(i, e));
                lemma_items_output_tokens(s, e, start, q, policy);
                lemma_push_link_analysis(p, selectors, policy);
                lemma_render_concat(pending_analysis(p, policy), link_analysis(selectors));
                lemma_fixed_accounted(link_analysis(selectors).counts, seq!['\u{200D}']);
                assert(r + tokens_output(s, i, policy) =~= r + seq!['\u{200D}'] + tokens_output(
                    s,
                    e,
                    policy,
                ));
            },
            TokenModel::Selectors { selectors } => {
                let item = ItemModel { start: i, end: e, kind: KindModel::Selectors { selectors } };
                assert(s.subrange(e, e) =~= Seq::<char>::empty());
                lemma_items_output_tokens(s, e, e, PendingModel::Empty, policy);
                let rest = scan_from(s, e, e, PendingModel::Empty);
                lemma_items_output_concat(s, flush(p, start, i), seq![item], policy);
                lemma_items_output_concat(s, flush(p, start, i) + seq![item], rest, policy);
                lemma_single_output(s, item, policy);
                lemma_fixed_accounted(
                    crate::analysis::unsanctioned(selectors.len()),
                    Seq::<char>::empty(),
                );
                assert(render_default(empty_analysis().elements) =~= Seq::<char>::empty());
                assert(items_output(s, scan_from(s, i, start, p), policy) =~= r + tokens_output(
                    s,
                    i,
                    policy,
                ));
            },
            TokenModel::Emoji { emoji } => {
                crate::scanner::lemma_emoji_token_text(s, i);
                let c = render_default(component_analysis(emoji, policy).elements);
                if awaits_emoji(p) {
                    let q = join_emoji(p, emoji);
                    crate::scanner::lemma_join_text(p, emoji);
                    assert(s.subrange(start, e) =~= s.subrange(start, i) + s.subrange(i, e));
                    lemma_items_output_tokens(s, e, start, q, policy);
                    lemma_join_analysis(p, emoji, policy);
                    lemma_render_concat(pending_analysis(p, policy), component_analysis(emoji, policy));
                    assert(r + tokens_output(s, i, policy) =~= r + c + tokens_output(s, e, policy));
                } else {
                    let q = PendingModel::EmojiHeaded {
                        first: emoji,
                        joined: Seq::empty(),
                        trailing: Seq::empty(),
                    };
                    assert(pending_text(q) =~= s.subrange(i, e)) by {
                        assert(joined_text(Seq::<JoinedModel>::empty()) =~= Seq::<char>::empty());
                        assert(links_text(Seq::<Seq<Presentation>>::empty()) =~= Seq::<char>::empty());
                    }
                    lemma_items_output_tokens(s, e, i, q, policy);
                    lemma_items_output_concat(s, flush(p, start, i), scan_from(s, e, i, q), policy);
                    let ca = component_analysis(emoji, policy);
                    lemma_concat_empty(ca);
                    assert(joined_analysis(Seq::<JoinedModel>::empty(), policy) == empty_analysis());
                    assert(links_analysis(Seq::<Seq<Presentation>>::empty()) == empty_analysis());
                    assert(pending_analysis(q, policy) == ca);
                    assert(items_output(s, scan_from(s, i, start, p), policy) =~= r + tokens_output(
                        s,
                        i,
                        policy,
                    ));
                }
            },
            TokenModel::Plain => {
                let item = ItemModel { start: i, end: e, kind: KindModel::Passthrough };
                assert(s.subrange(e, e) =~= Seq::<char>::empty());
                lemma_items_output_tokens(s, e, e, PendingModel::Empty, policy);
                let rest = scan_from(s, e, e, PendingModel::Empty);
                lemma_items_output_concat(s, flush(p, start, i), seq![item], policy);
                lemma_items_output_concat(s, flush(p, start, i) + seq![item], rest, policy);
                lemma_single_output(s, item, policy);
                assert(render_default(empty_analysis().elements) =~= Seq::<char>::empty());
                assert(items_output(s, scan_from(s, i, start, p), policy) =~= r + tokens_output(
                    s,
                    i,
                    policy,
                ));
            },
        }
    } else {
        assert(r + tokens_output(s, i, policy) =~= r);
    }
}

// --- Facts about runs and tokens ---

/// Regional indicators have the `Emoji` property.
proof fn lemma_regional_indicator_is_emoji(c: char)
    requires
        regional_indicator_char(c),
    ensures
        emoji_char(c),
{
    assert(crate::unicode::range_holds(crate::unicode::EMOJI_RANGES@[96], c as u32));
}

/// A run that ends exactly at `b`.
pub(crate) proof fn lemma_run_end_exact(u: Seq<char>, a: int, b: int, class: RunClass)
    requires
        0 <= a <= b <= u.len(),
        forall|k: int| a <= k < b ==> in_class(#[trigger] u[k], class),
        b == u.len() || !in_class(u[b], class),
    ensures
        run_end(u, a, class) == b,
    decreases b - a,
{
    if a < b {
        lemma_run_end_exact(u, a + 1, b, class);
    }
}

/// Whether `w` is what follows position `k` of `s`: nothing at the end,
/// otherwise a text starting with `s[k]`.
pub(crate) open spec fn follows(s: Seq<char>, k: int, w: Seq<char>) -> bool {
    ||| k == s.len() && w.len() == 0
    ||| 0 <= k < s.len() && w.len() > 0 && w[0] == s[k]
}

/// The tag runs starting at a tag character: their tag characters are
/// tag characters, they start with `s[i]`, and what follows them is neither
/// a tag character nor a selector.
proof fn lemma_tag_runs_facts(s: Seq<char>, i: int)
    requires
        0 <= i < s.len(),
        tag_char(s[i]),
    ensures
        tag_chars_text(tag_runs_at(s, i).0).len() > 0,
        tag_chars_text(tag_runs_at(s, i).0)[0] == s[i],
        forall|k: int|
            0 <= k < tag_chars_text(tag_runs_at(s, i).0).len() ==> tag_char(
                #[trigger] tag_chars_text(tag_runs_at(s, i).0)[k],
            ),
        i < tag_runs_at(s, i).1 <= s.len(),
        tag_runs_at(s, i).1 < s.len() ==> !tag_char(s[tag_runs_at(s, i).1]) && !is_selector_char(
            s[tag_runs_at(s, i).1],
        ),
    decreases s.len() - i,
{
    let te = run_end(s, i, RunClass::Tag);
    crate::scanner::lemma_run_end(s, i, RunClass::Tag);
    crate::scanner::lemma_run_end(s, te, RunClass::Selector);
    let se = selector_end(s, te);
    let runs = tag_runs_at(s, i).0;
    let tag = s.subrange(i, te);
    assert(runs[0].tag == tag);
    assert(runs.drop_first() =~= tag_runs_at(s, se).0);
    crate::scanner::lemma_tag_runs_at(s, se);
    if se < s.len() && tag_char(s[se]) {
        lemma_tag_runs_facts(s, se);
    }
    let rest = tag_chars_text(tag_runs_at(s, se).0);
    assert(tag_chars_text(runs) == tag + rest);
    assert forall|k: int| 0 <= k < (tag + rest).len() implies tag_char(#[trigger] (tag + rest)[k]) by {
        if k < tag.len() {
            assert((tag + rest)[k] == s[i + k]);
        } else {
            assert((tag + rest)[k] == rest[k - tag.len()]);
            if !(se < s.len() && tag_char(s[se])) {
                assert(tag_runs_at(s, se).0 =~= Seq::<TagRunModel>::empty());
            }
        }
    }
}

/// A modification list that is not empty starts, once its selectors are
/// removed, with the character at its position.
proof fn lemma_modifications_first(s: Seq<char>, pos: int)
    requires
        0 <= pos <= s.len(),
    ensures
        modifications_at(s, pos).0.len() > 0 ==> pos < s.len() && stripped_modifications_text(
            modifications_at(s, pos).0,
        ).len() > 0 && stripped_modifications_text(modifications_at(s, pos).0)[0] == s[pos],
        modifications_at(s, pos).0.len() == 0 ==> modifications_at(s, pos).1 == pos,
        pos <= modifications_at(s, pos).1 <= s.len(),
        modifications_at(s, pos).1 > pos ==> (modifications_at(s, pos).1 == s.len()
            || !is_selector_char(s[modifications_at(s, pos).1])),
        modifications_at(s, pos).1 < s.len() ==> modification_at(s, modifications_at(s, pos).1) is None,
    decreases s.len() - pos,
{
    crate::scanner::lemma_modifications_at(s, pos);
    crate::scanner::lemma_modification_at(s, pos);
    match modification_at(s, pos) {
        Some((m, e)) => {
            lemma_modifications_first(s, e);
            let ms = modifications_at(s, pos).0;
            assert(ms[0] == m);
            assert(ms.drop_first() =~= modifications_at(s, e).0);
            let c = s[pos];
            if emoji_modifier_char(c) || c == '\u{20E3}' {
                crate::scanner::lemma_run_end(s, pos + 1, RunClass::Selector);
            } else {
                lemma_tag_runs_facts(s, pos);
            }
        },
        None => {},
    }
}

/// The position after an emoji token holds no selector.
proof fn lemma_emoji_token_end(s: Seq<char>, i: int)
    requires
        0 <= i < s.len(),
    ensures
        stem_at(s, i).1 < s.len() ==> !is_selector_char(s[stem_at(s, i).1]),
        modifications_at(s, stem_at(s, i).1).1 < s.len() ==> !is_selector_char(
            s[modifications_at(s, stem_at(s, i).1).1],
        ),
{
    crate::scanner::lemma_run_end(s, i + 1, RunClass::Selector);
    let e1 = selector_end(s, i + 1);
    if e1 < s.len() {
        crate::scanner::lemma_run_end(s, e1 + 1, RunClass::Selector);
    }
    crate::scanner::lemma_stem_at(s, i);
    lemma_modifications_first(s, stem_at(s, i).1);
}

/// Whether every token from `|x| + j` of `x + y` is canonical is decided by
/// `y` alone.
proof fn lemma_tokens_canonical_shift(x: Seq<char>, y: Seq<char>, j: int, policy: Policy)
    requires
        0 <= j <= y.len(),
    ensures
        tokens_canonical(x + y, x.len() + j, policy) == tokens_canonical(y, j, policy),
    decreases y.len() - j,
{
    if j < y.len() {
        lemma_token_shift(x, y, j);
        crate::scanner::lemma_token_at(y, j);
        lemma_tokens_canonical_shift(x, y, token_at(y, j).1, policy);
    }
}

// --- Rescanning the rendering of one token ---

/// A modification without its selectors; the tag runs of a tag modifier
/// become one run of all its tag characters.
pub(crate) open spec fn stripped_modification(m: ModificationModel) -> ModificationModel {
    match m {
        ModificationModel::EmojiModifier { modifier, .. } => ModificationModel::EmojiModifier {
            modifier,
            selectors: Seq::empty(),
        },
        ModificationModel::EnclosingKeycap { .. } => ModificationModel::EnclosingKeycap {
            selectors: Seq::empty(),
        },
        ModificationModel::TagModifier { runs } => ModificationModel::TagModifier {
            runs: seq![TagRunModel { tag: tag_chars_text(runs), selectors: Seq::empty() }],
        },
    }
}

pub(crate) open spec fn stripped_modifications(ms: Seq<ModificationModel>) -> Seq<ModificationModel>
    decreases ms.len(),
{
    if ms.len() == 0 {
        Seq::empty()
    } else {
        seq![stripped_modification(ms[0])] + stripped_modifications(ms.drop_first())
    }
}

proof fn lemma_tag_runs_rescan(s: Seq<char>, i: int, z: Seq<char>, w: Seq<char>)
    requires
        0 <= i < s.len(),
        tag_char(s[i]),
        follows(s, tag_runs_at(s, i).1, w),
    ensures
        tag_runs_at(z + tag_chars_text(tag_runs_at(s, i).0) + w, z.len() as int).0 == seq![
            TagRunModel { tag: tag_chars_text(tag_runs_at(s, i).0), selectors: Seq::empty() },
        ],
        tag_runs_at(z + tag_chars_text(tag_runs_at(s, i).0) + w, z.len() as int).1 == z.len()
            + tag_chars_text(tag_runs_at(s, i).0).len(),
{
    lemma_tag_runs_facts(s, i);
    let t = tag_chars_text(tag_runs_at(s, i).0);
    let u = z + t + w;
    let a = z.len() as int;
    let b = a + t.len();
    assert forall|k: int| a <= k < b implies in_class(#[trigger] u[k], RunClass::Tag) by {
        assert(u[k] == t[k - a]);
    }
    if b < u.len() {
        assert(u[b] == w[0]);
    }
    assert(u[a] == t[0]);
    lemma_run_end_exact(u, a, b, RunClass::Tag);
    lemma_run_end_exact(u, b, b, RunClass::Selector);
    assert(u.subrange(a, b) =~= t);
    assert(presentations(u, b, b) =~= Seq::<Presentation>::empty());
    assert(tag_runs_at(u, b) == (Seq::<TagRunModel>::empty(), b));
    assert(tag_runs_at(u, a).0 =~= seq![TagRunModel { tag: t, selectors: Seq::empty() }]);
}

/// The modifications at `pos`, written without their selectors and
/// followed by `w`, rescan as the same modifications without selectors.
proof fn lemma_modifications_rescan(s: Seq<char>, pos: int, z: Seq<char>, w: Seq<char>)
    requires
        0 <= pos <= s.len(),
        follows(s, modifications_at(s, pos).1, w),
    ensures
        modifications_at(
            z + stripped_modifications_text(modifications_at(s, pos).0) + w,
            z.len() as int,
        ).0 == stripped_modifications(modifications_at(s, pos).0),
        modifications_at(
            z + stripped_modifications_text(modifications_at(s, pos).0) + w,
            z.len() as int,
        ).1 == z.len() + stripped_modifications_text(modifications_at(s, pos).0).len(),
    decreases s.len() - pos,
{
    crate::scanner::lemma_modification_at(s, pos);
    crate::scanner::lemma_modifications_at(s, pos);
    lemma_modifications_first(s, pos);
    let ms = modifications_at(s, pos).0;
    let st = stripped_modifications_text(ms);
    let u = z + st + w;
    let a = z.len() as int;
    match modification_at(s, pos) {
        None => {
            assert(ms =~= Seq::<ModificationModel>::empty());
            assert(st =~= Seq::<char>::empty());
            if pos < s.len() {
                assert(u[a] == s[pos]);
            }
            assert(modification_at(u, a) is None);
            assert(stripped_modifications(ms) =~= Seq::<ModificationModel>::empty());
        },
        Some((m, e)) => {
            crate::scanner::lemma_modifications_at(s, e);
            lemma_modifications_first(s, e);
            let ms2 = modifications_at(s, e).0;
            let st2 = stripped_modifications_text(ms2);
            assert(ms[0] == m);
            assert(ms.drop_first() =~= ms2);
            assert(modifications_at(s, pos).1 == modifications_at(s, e).1);
            let w2 = st2 + w;
            assert(follows(s, e, w2)) by {
                if ms2.len() == 0 {
                    assert(st2 =~= Seq::<char>::empty());
                    assert(w2 =~= w);
                } else {
                    assert(w2[0] == st2[0]);
                }
            }
            let sm = stripped_modification_text(m);
            assert(st == sm + st2);
            assert(u =~= z + sm + w2);
            let c = s[pos];
            if emoji_modifier_char(c) || c == '\u{20E3}' {
                crate::scanner::lemma_run_end(s, pos + 1, RunClass::Selector);
                assert(sm =~= seq![c]);
                assert(u[a] == c);
                if a + 1 < u.len() {
                    assert(u[a + 1] == w2[0]);
                }
                lemma_run_end_exact(u, a + 1, a + 1, RunClass::Selector);
                assert(presentations(u, a + 1, a + 1) =~= Seq::<Presentation>::empty());
                lemma_modifications_rescan(s, e, z + sm, w);
                assert(z + sm + st2 + w =~= u);
            } else {
                lemma_tag_runs_facts(s, pos);
                lemma_tag_runs_rescan(s, pos, z, w2);
                assert(u[a] == sm[0]);
                lemma_modifications_rescan(s, e, z + sm, w);
                assert(z + sm + st2 + w =~= u);
            }
            let m2 = (modification_at(u, a)->0).0;
            assert(m2 == stripped_modification(m));
            assert(modifications_at(u, a).0 =~= seq![m2] + stripped_modifications(ms2));
            assert(stripped_modifications(ms) =~= seq![stripped_modification(m)]
                + stripped_modifications(ms2));
        },
    }
}

/// The presentation the default rendering gives a base.
pub(crate) open spec fn rendered_presentation(o: BaseOutcome) -> Option<Presentation> {
    match o {
        BaseOutcome::Deterministic { canonical, .. } => canonical,
        BaseOutcome::NeedsDecision { default, .. } => Some(default),
    }
}

/// Whether two optional modifications are of the same kind.
pub(crate) open spec fn same_kind(a: Option<ModificationModel>, b: Option<ModificationModel>) -> bool {
    match (a, b) {
        (None, None) => true,
        (Some(ModificationModel::EmojiModifier { .. }), Some(ModificationModel::EmojiModifier { .. })) => true,
        (Some(ModificationModel::EnclosingKeycap { .. }), Some(ModificationModel::EnclosingKeycap { .. })) => true,
        (Some(ModificationModel::TagModifier { .. }), Some(ModificationModel::TagModifier { .. })) => true,
        _ => false,
    }
}

/// The default rendering of an emoji.
proof fn lemma_component_render(e: EmojiModel, policy: Policy)
    ensures
        render_default(component_analysis(e, policy).elements) == match e.stem {
            StemModel::SingletonBase { base, selectors } => render_singleton(
                base,
                rendered_presentation(
                    base_outcome(base, selectors, first_modification(e.modifiers), policy),
                ),
                e.modifiers,
            ),
            StemModel::Flag { first_ri, second_ri, .. } => render_flag(
                first_ri,
                second_ri,
                e.modifiers,
            ),
        },
{
    let a = component_analysis(e, policy);
    match e.stem {
        StemModel::SingletonBase { base, selectors } => {
            match base_outcome(base, selectors, first_modification(e.modifiers), policy) {
                BaseOutcome::Deterministic { canonical, counts } => {
                    lemma_fixed_accounted(a.counts, render_singleton(base, canonical, e.modifiers));
                },
                BaseOutcome::NeedsDecision { default, counts } => {
                    assert(a.elements.drop_last() =~= Seq::<crate::analysis::ElementModel>::empty());
                    assert(render_default(a.elements.drop_last()) =~= Seq::<char>::empty());
                    assert(render_default(a.elements) =~= render_singleton(base, Some(default), e.modifiers));
                },
            }
        },
        StemModel::Flag { first_ri, second_ri, .. } => {
            lemma_fixed_accounted(a.counts, render_flag(first_ri, second_ri, e.modifiers));
        },
    }
}

/// Rescanning a base with the presentation its default rendering gives it
/// counts nothing.
proof fn lemma_rendered_outcome_zero(
    base: char,
    sels: Seq<Presentation>,
    first: Option<ModificationModel>,
    first2: Option<ModificationModel>,
    policy: Policy,
)
    requires
        same_kind(first, first2),
    ensures
        is_zero(
            outcome_counts(
                base_outcome(
                    base,
                    presentation_run(rendered_presentation(base_outcome(base, sels, first, policy))),
                    first2,
                    policy,
                ),
            ),
        ),
{
    let p = rendered_presentation(base_outcome(base, sels, first, policy));
    let r = presentation_run(p);
    assert(r.take(r.len() as int) =~= r);
}

proof fn lemma_stripped_modifications_facts(ms: Seq<ModificationModel>)
    ensures
        modifications_selector_count(stripped_modifications(ms)) == 0,
        same_kind(first_modification(ms), first_modification(stripped_modifications(ms))),
    decreases ms.len(),
{
    if ms.len() > 0 {
        lemma_stripped_modifications_facts(ms.drop_first());
        let sm = stripped_modifications(ms);
        assert(sm[0] == stripped_modification(ms[0]));
        assert(sm.drop_first() =~= stripped_modifications(ms.drop_first()));
        match ms[0] {
            ModificationModel::TagModifier { runs } => {
                let one = seq![TagRunModel { tag: tag_chars_text(runs), selectors: Seq::empty() }];
                assert(one.drop_first() =~= Seq::<TagRunModel>::empty());
                assert(tag_selector_count(one.drop_first()) == 0);
                assert(one[0].selectors.len() == 0);
                assert(tag_selector_count(one) == 0);
            },
            _ => {},
        }
    }
}

/// The default rendering of the emoji token at `i` starts with `s[i]`.
proof fn lemma_emoji_output_first(s: Seq<char>, i: int, policy: Policy)
    requires
        0 <= i < s.len(),
        token_at(s, i).0 is Emoji,
    ensures
        render_default(component_analysis(token_at(s, i).0->emoji, policy).elements).len() > 0,
        render_default(component_analysis(token_at(s, i).0->emoji, policy).elements)[0] == s[i],
{
    lemma_component_render(token_at(s, i).0->emoji, policy);
}

/// The default rendering of the emoji token at `i`, followed by what
/// follows the token, rescans as one canonical emoji token.
proof fn lemma_emoji_rescan(s: Seq<char>, i: int, w: Seq<char>, policy: Policy)
    requires
        0 <= i < s.len(),
        token_at(s, i).0 is Emoji,
        follows(s, token_at(s, i).1, w),
    ensures
        token_at(
            render_default(component_analysis(token_at(s, i).0->emoji, policy).elements) + w,
            0,
        ).1 == render_default(component_analysis(token_at(s, i).0->emoji, policy).elements).len(),
        token_canonical(
            token_at(
                render_default(component_analysis(token_at(s, i).0->emoji, policy).elements) + w,
                0,
            ).0,
            policy,
        ),
{
    let e = token_at(s, i).0->emoji;
    let c = render_default(component_analysis(e, policy).elements);
    let u = c + w;
    crate::scanner::lemma_stem_at(s, i);
    lemma_emoji_token_end(s, i);
    let e1s = stem_at(s, i).1;
    lemma_modifications_first(s, e1s);
    let ms = modifications_at(s, e1s).0;
    let k = modifications_at(s, e1s).1;
    assert(e.modifiers == ms);
    assert(token_at(s, i).1 == k);
    lemma_component_render(e, policy);
    lemma_stripped_modifications_facts(ms);
    let st = stripped_modifications_text(ms);
    crate::scanner::lemma_run_end(s, i + 1, RunClass::Selector);
    let e1 = selector_end(s, i + 1);
    match e.stem {
        StemModel::SingletonBase { base, selectors } => {
            let p = rendered_presentation(base_outcome(base, selectors, first_modification(ms), policy));
            let zz = seq![base] + presentation_text(p);
            assert(c =~= zz + st);
            assert(u =~= zz + st + w);
            lemma_modifications_rescan(s, e1s, zz, w);
            let b = zz.len() as int;
            assert(e1s == e1);
            // what follows the base's presentation is what followed its selectors
            if b < u.len() {
                if ms.len() > 0 {
                    assert(u[b] == st[0]);
                } else {
                    assert(u[b] == w[0]);
                }
                assert(u[b] == s[e1s]);
            }
            assert forall|q: int| 1 <= q < b implies in_class(#[trigger] u[q], RunClass::Selector) by {
                assert(u[q] == zz[q]);
            }
            lemma_run_end_exact(u, 1, b, RunClass::Selector);
            assert(presentations(u, 1, b) =~= presentation_run(p)) by {
                match p {
                    Some(q) => {
                        assert(u[1] == selector_char(q));
                    },
                    None => {},
                }
            }
            assert(u[0] == s[i]);
            assert(stem_at(u, 0) == (StemModel::SingletonBase { base, selectors: presentation_run(p) }, b));
            let e2 = EmojiModel {
                stem: StemModel::SingletonBase { base, selectors: presentation_run(p) },
                modifiers: stripped_modifications(ms),
            };
            assert(token_at(u, 0) == (TokenModel::Emoji { emoji: e2 }, b + st.len()));
            lemma_rendered_outcome_zero(
                base,
                selectors,
                first_modification(ms),
                first_modification(stripped_modifications(ms)),
                policy,
            );
        },
        StemModel::Flag { first_ri, first_selectors, second_ri, second_selectors } => {
            let zz = seq![first_ri, second_ri];
            assert(c =~= zz + st);
            assert(u =~= zz + st + w);
            lemma_modifications_rescan(s, e1s, zz, w);
            crate::scanner::lemma_run_end(s, e1 + 1, RunClass::Selector);
            if 2 < u.len() {
                if ms.len() > 0 {
                    assert(u[2] == st[0]);
                } else {
                    assert(u[2] == w[0]);
                }
                assert(u[2] == s[e1s]);
            }
            assert(u[0] == s[i]);
            assert(u[1] == s[e1]);
            lemma_run_end_exact(u, 1, 1, RunClass::Selector);
            lemma_run_end_exact(u, 2, 2, RunClass::Selector);
            assert(presentations(u, 1, 1) =~= Seq::<Presentation>::empty());
            assert(presentations(u, 2, 2) =~= Seq::<Presentation>::empty());
            let e2 = EmojiModel {
                stem: StemModel::Flag {
                    first_ri,
                    first_selectors: Seq::empty(),
                    second_ri,
                    second_selectors: Seq::empty(),
                },
                modifiers: stripped_modifications(ms),
            };
            assert(token_at(u, 0) == (TokenModel::Emoji { emoji: e2 }, 2 + st.len() as int));
        },
    }
}

/// A bare joiner, followed by what followed the link token at `i`,
/// rescans as a link without selectors.
proof fn lemma_link_rescan(s: Seq<char>, i: int, w: Seq<char>)
    requires
        0 <= i < s.len(),
        s[i] == '\u{200D}',
        follows(s, selector_end(s, i + 1), w),
    ensures
        token_at(seq!['\u{200D}'] + w, 0) == (TokenModel::Link { selectors: Seq::empty() }, 1int),
{
    let u = seq!['\u{200D}'] + w;
    crate::scanner::lemma_run_end(s, i + 1, RunClass::Selector);
    if 1 < u.len() {
        assert(u[1] == w[0]);
    }
    lemma_run_end_exact(u, 1, 1, RunClass::Selector);
    assert(presentations(u, 1, 1) =~= Seq::<Presentation>::empty());
}

// --- The output's tokens are canonical ---

/// What formatting writes from a position that holds no selector starts
/// with the character there.
proof fn lemma_tokens_output_follows(s: Seq<char>, k: int, policy: Policy)
    requires
        0 <= k <= s.len(),
        k == s.len() || !is_selector_char(s[k]),
    ensures
        follows(s, k, tokens_output(s, k, policy)),
{
    if k < s.len() {
        crate::scanner::lemma_token_at(s, k);
        let t = token_at(s, k);
        let out = tokens_output(s, k, policy);
        match t.0 {
            TokenModel::Link { .. } => {
                assert(out[0] == '\u{200D}');
            },
            TokenModel::Selectors { .. } => {},
            TokenModel::Emoji { emoji } => {
                lemma_emoji_output_first(s, k, policy);
                let c = render_default(component_analysis(emoji, policy).elements);
                assert(out[0] == c[0]);
            },
            TokenModel::Plain => {
                assert(out[0] == s.subrange(k, t.1)[0]);
            },
        }
    }
}

/// Plain text in front of a text that starts with a structural character
/// (or is empty) is one canonical token.
proof fn lemma_plain_prefix(x: Seq<char>, u: Seq<char>, policy: Policy)
    requires
        forall|k: int| 0 <= k < x.len() ==> !structural_char(#[trigger] x[k]),
        u.len() == 0 || structural_char(u[0]),
    ensures
        tokens_canonical(x + u, 0, policy) == tokens_canonical(u, 0, policy),
{
    if x.len() == 0 {
        assert(x + u =~= u);
    } else {
        let v = x + u;
        assert(v[0] == x[0]);
        if regional_indicator_char(x[0]) {
            lemma_regional_indicator_is_emoji(x[0]);
        }
        assert forall|k: int| 0 <= k < x.len() implies in_class(#[trigger] v[k], RunClass::NonStructural) by {
            assert(v[k] == x[k]);
        }
        if x.len() < v.len() {
            assert(v[x.len() as int] == u[0]);
        }
        lemma_run_end_exact(v, 0, x.len() as int, RunClass::NonStructural);
        crate::scanner::lemma_token_at(v, 0);
        assert(token_at(v, 0) == (TokenModel::Plain, x.len() as int));
        if u.len() > 0 {
            lemma_tokens_canonical_shift(x, u, 0, policy);
        } else {
            assert(tokens_canonical(v, x.len() as int, policy));
        }
    }
}

/// Plain text followed by what formatting writes from position `i` on
/// consists of canonical tokens.
pub(crate) proof fn lemma_output_canonical_from(s: Seq<char>, i: int, x: Seq<char>, policy: Policy)
    requires
        0 <= i <= s.len(),
        forall|k: int| 0 <= k < x.len() ==> !structural_char(#[trigger] x[k]),
    ensures
        tokens_canonical(x + tokens_output(s, i, policy), 0, policy),
    decreases s.len() - i,
{
    if i == s.len() {
        lemma_plain_prefix(x, Seq::<char>::empty(), policy);
        assert(x + tokens_output(s, i, policy) =~= x + Seq::<char>::empty());
    } else {
        crate::scanner::lemma_token_at(s, i);
        let t = token_at(s, i);
        let e = t.1;
        let rest = tokens_output(s, e, policy);
        match t.0 {
            TokenModel::Plain => {
                crate::scanner::lemma_run_end(s, i, RunClass::NonStructural);
                let raw = s.subrange(i, e);
                let x2 = x + raw;
                assert forall|k: int| 0 <= k < x2.len() implies !structural_char(#[trigger] x2[k]) by {
                    if k < x.len() {
                        assert(x2[k] == x[k]);
                    } else {
                        assert(x2[k] == s[i + k - x.len()]);
                    }
                }
                lemma_output_canonical_from(s, e, x2, policy);
                assert(x + tokens_output(s, i, policy) =~= x2 + rest);
            },
            TokenModel::Selectors { .. } => {
                lemma_output_canonical_from(s, e, x, policy);
                assert(tokens_output(s, i, policy) =~= rest);
            },
            TokenModel::Link { selectors } => {
                crate::scanner::lemma_run_end(s, i + 1, RunClass::Selector);
                lemma_tokens_output_follows(s, e, policy);
                let c = seq!['\u{200D}'];
                let u = c + rest;
                assert(tokens_output(s, i, policy) == u);
                lemma_link_rescan(s, i, rest);
                lemma_output_canonical_from(s, e, Seq::<char>::empty(), policy);
                assert(Seq::<char>::empty() + rest =~= rest);
                lemma_tokens_canonical_shift(c, rest, 0, policy);
                assert(tokens_canonical(u, 0, policy));
                lemma_plain_prefix(x, u, policy);
            },
            TokenModel::Emoji { emoji } => {
                lemma_emoji_token_end(s, i);
                crate::scanner::lemma_stem_at(s, i);
                lemma_modifications_first(s, stem_at(s, i).1);
                lemma_tokens_output_follows(s, e, policy);
                let c = render_default(component_analysis(emoji, policy).elements);
                let u = c + rest;
                assert(tokens_output(s, i, policy) == u);
                lemma_emoji_rescan(s, i, rest, policy);
                lemma_emoji_output_first(s, i, policy);
                lemma_output_canonical_from(s, e, Seq::<char>::empty(), policy);
                assert(Seq::<char>::empty() + rest =~= rest);
                lemma_tokens_canonical_shift(c, rest, 0, policy);
                assert(tokens_canonical(u, 0, policy));
                assert(u[0] == s[i]);
                if regional_indicator_char(s[i]) {
                    lemma_regional_indicator_is_emoji(s[i]);
                }
                lemma_plain_prefix(x, u, policy);
            },
        }
    }
}

} // verus!
