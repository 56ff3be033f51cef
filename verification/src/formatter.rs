//! Whole-text formatting.
//!
//! [`format_text`] scans its input once, analyses each item under a
//! [`Policy`], and writes each finding's default replacement in place of the
//! item's text.

use vstd::prelude::*;
use vstd::string::StringSliceAdditionalSpecFns;

use crate::analysis::{
    analyze_scan_item, base_outcome, component_analysis, default_decisions, first_modification,
    item_analysis, lemma_default_replacement_is_default_decisions,
    lemma_replacement_changes_only_selectors, policy_outcome, presentation_run, presentation_text,
    render_default, render_singleton, stripped_modifications_text, BaseOutcome, ElementModel,
};
use crate::policy::{Policy, SingletonRule};
use crate::presentation::{
    is_selector_char, lemma_selector_round_trip, lemma_strip_concat, presentation_of, selector_char,
    selector_chars, strip_selectors, Presentation,
};
use crate::rescan::{
    lemma_canonical_scan, lemma_items_output_tokens, lemma_output_canonical_from,
    lemma_run_end_exact, no_findings, tokens_output,
};
use crate::scanner::{
    all_wf, item_wf, items_text, lemma_scan_lossless, modifications_at, pending_wf, presentations,
    run_end, scan, scan_model, selector_end, token_at, EmojiModel, ItemModel, ModificationModel,
    PendingModel, RunClass, StemModel, TokenModel,
};
use crate::text::chars_of;
use crate::unicode::{emoji_char, has_vs, regional_indicator_char};
use crate::utf8::lemma_encode_len;

verus! {

/// The result of formatting a text.
#[derive(Debug, Clone, PartialEq, Eq)]
pub enum FormatResult {
    /// The input was already canonical; no changes needed.
    Unchanged,
    /// The input was modified; contains the new text.
    Changed(String),
}

/// What formatting writes for item `m` of text `s`: the default replacement
/// of its finding, or its own text when it has none.
pub open spec fn item_output(s: Seq<char>, m: ItemModel, policy: Policy) -> Seq<char> {
    match item_analysis(m.kind, policy) {
        Some(a) => render_default(a.elements),
        None => s.subrange(m.start, m.end),
    }
}

/// What formatting writes for `items`, in order.
pub open spec fn items_output(s: Seq<char>, items: Seq<ItemModel>, policy: Policy) -> Seq<char>
    decreases items.len(),
{
    if items.len() == 0 {
        Seq::empty()
    } else {
        items_output(s, items.drop_last(), policy) + item_output(s, items.last(), policy)
    }
}

/// The formatted form of `s` under `policy`.
pub open spec fn format_output(s: Seq<char>, policy: Policy) -> Seq<char> {
    items_output(s, scan_model(s), policy)
}

fn same_chars(a: &Vec<char>, b: &Vec<char>) -> (r: bool)
    ensures
        r == (a@ == b@),
{
    if a.len() != b.len() {
        return false;
    }
    let mut k: usize = 0;
    while k < a.len()
        invariant
            a.len() == b.len(),
            k <= a.len(),
            forall|j: int| 0 <= j < k ==> a@[j] == b@[j],
        decreases a.len() - k,
    {
        if a[k] != b[k] {
            return false;
        }
        k = k + 1;
    }
    proof {
        assert(a@ =~= b@);
    }
    true
}

/// Format `input` under `policy`: `Unchanged` when the formatted text is the
/// input itself, otherwise the formatted text.
pub fn format_text(input: &str, policy: &Policy) -> (r: FormatResult)
    ensures
        match r {
            FormatResult::Unchanged => format_output(input@, *policy) == input@,
            FormatResult::Changed(text) => text@ == format_output(input@, *policy) && text@
                != input@,
        },
{
    let ghost s = input@;
    let ghost model = scan_model(s);
    let n: usize = input.as_bytes().len();
    proof {
        lemma_scan_lossless(s);
        lemma_encode_len(s);
    }
    let items = scan(input).into_items();
    let mut output = String::new();
    let mut k: usize = 0;
    proof {
        assert(model.take(0) =~= Seq::<ItemModel>::empty());
    }
    while k < items.len()
        invariant
            s == input@,
            model == scan_model(s),
            s.len() <= n,
            items@.len() == model.len(),
            forall|j: int|
                0 <= j < model.len() ==> crate::scanner::item_is(s, #[trigger] items@[j], model[j]),
            forall|j: int| 0 <= j < model.len() ==> item_wf(s, #[trigger] model[j]),
            k <= items.len(),
            output@ == items_output(s, model.take(k as int), *policy),
        decreases items.len() - k,
    {
        let item = &items[k];
        proof {
            assert(crate::scanner::item_is(s, items@[k as int], model[k as int]));
            assert(item_wf(s, model[k as int]));
            assert(model.take(k as int + 1).drop_last() =~= model.take(k as int));
            assert(model.take(k as int + 1).last() == model[k as int]);
        }
        match analyze_scan_item(item, policy) {
            Some(finding) => {
                let replacement = finding.default_canonical_replacement();
                output.append(replacement.as_str());
            },
            None => {
                output.append(item.raw);
            },
        }
        k = k + 1;
    }
    proof {
        assert(model.take(k as int) =~= model);
    }
    let out_chars = chars_of(output.as_str());
    let in_chars = chars_of(input);
    if same_chars(&out_chars, &in_chars) {
        FormatResult::Unchanged
    } else {
        FormatResult::Changed(output)
    }
}

proof fn lemma_items_text_push(s: Seq<char>, items: Seq<ItemModel>, m: ItemModel)
    ensures
        items_text(s, items.push(m)) == items_text(s, items) + s.subrange(m.start, m.end),
    decreases items.len(),
{
    if items.len() == 0 {
        assert(items.push(m).drop_first() =~= Seq::<ItemModel>::empty());
        assert(items.push(m)[0] == m);
        assert(items_text(s, items.push(m).drop_first()) =~= Seq::<char>::empty());
        assert(items_text(s, items) =~= Seq::<char>::empty());
        assert(items_text(s, items.push(m)) =~= s.subrange(m.start, m.end));
    } else {
        lemma_items_text_push(s, items.drop_first(), m);
        assert(items.push(m).drop_first() =~= items.drop_first().push(m));
        assert(items.push(m)[0] == items[0]);
        assert(items_text(s, items.push(m)) =~= items_text(s, items) + s.subrange(m.start, m.end));
    }
}

proof fn lemma_item_output_strips(s: Seq<char>, m: ItemModel, policy: Policy)
    requires
        item_wf(s, m),
    ensures
        strip_selectors(item_output(s, m, policy)) == strip_selectors(s.subrange(m.start, m.end)),
{
    match item_analysis(m.kind, policy) {
        Some(a) => {
            lemma_default_replacement_is_default_decisions(a.elements);
            lemma_replacement_changes_only_selectors(s, m, policy, default_decisions(a.elements));
        },
        None => {},
    }
}

proof fn lemma_items_output_strips(s: Seq<char>, items: Seq<ItemModel>, policy: Policy)
    requires
        all_wf(s, items),
    ensures
        strip_selectors(items_output(s, items, policy)) == strip_selectors(items_text(s, items)),
    decreases items.len(),
{
    if items.len() > 0 {
        let init = items.drop_last();
        let m = items.last();
        assert forall|k: int| 0 <= k < init.len() implies item_wf(s, #[trigger] init[k]) by {
            assert(init[k] == items[k]);
        }
        assert(item_wf(s, items[items.len() - 1]));
        lemma_items_output_strips(s, init, policy);
        lemma_item_output_strips(s, m, policy);
        lemma_items_text_push(s, init, m);
        assert(init.push(m) =~= items);
        lemma_strip_concat(items_output(s, init, policy), item_output(s, m, policy));
        lemma_strip_concat(items_text(s, init), s.subrange(m.start, m.end));
    }
}

/// Formatting inserts and removes presentation selectors only: with
/// selectors removed, the formatted text is the input.
pub proof fn lemma_format_changes_only_selectors(s: Seq<char>, policy: Policy)
    ensures
        strip_selectors(format_output(s, policy)) == strip_selectors(s),
{
    lemma_scan_lossless(s);
    lemma_items_output_strips(s, scan_model(s), policy);
}

/// Formatted text is canonical: no item of its scan has a finding.
pub proof fn lemma_format_output_canonical(s: Seq<char>, policy: Policy)
    ensures
        forall|k: int|
            0 <= k < scan_model(format_output(s, policy)).len() ==> (#[trigger] item_analysis(
                scan_model(format_output(s, policy))[k].kind,
                policy,
            )) is None,
{
    let t = format_output(s, policy);
    assert(s.subrange(0, 0) =~= Seq::<char>::empty());
    assert(pending_wf(s, 0, 0, PendingModel::Empty));
    lemma_items_output_tokens(s, 0, 0, PendingModel::Empty, policy);
    assert(render_default(Seq::<crate::analysis::ElementModel>::empty()) =~= Seq::<char>::empty());
    assert(t =~= crate::rescan::tokens_output(s, 0, policy));
    lemma_output_canonical_from(s, 0, Seq::<char>::empty(), policy);
    assert(Seq::<char>::empty() + t =~= t);
    lemma_canonical_scan(t, 0, 0, PendingModel::Empty, policy);
    assert(no_findings(scan_model(t), policy));
}

proof fn lemma_items_output_without_findings(t: Seq<char>, items: Seq<ItemModel>, policy: Policy)
    requires
        no_findings(items, policy),
    ensures
        items_output(t, items, policy) == items_text(t, items),
    decreases items.len(),
{
    if items.len() > 0 {
        let init = items.drop_last();
        let m = items.last();
        assert(no_findings(init, policy)) by {
            assert forall|k: int| 0 <= k < init.len() implies (#[trigger] item_analysis(
                init[k].kind,
                policy,
            )) is None by {
                assert(init[k] == items[k]);
            }
        }
        assert(item_analysis(items[items.len() - 1].kind, policy) is None);
        lemma_items_output_without_findings(t, init, policy);
        lemma_items_text_push(t, init, m);
        assert(init.push(m) =~= items);
    }
}

/// Formatting is idempotent: formatting formatted text changes nothing.
pub proof fn lemma_format_idempotent(s: Seq<char>, policy: Policy)
    ensures
        format_output(format_output(s, policy), policy) == format_output(s, policy),
{
    let t = format_output(s, policy);
    lemma_format_output_canonical(s, policy);
    lemma_scan_lossless(t);
    assert(no_findings(scan_model(t), policy));
    lemma_items_output_without_findings(t, scan_model(t), policy);
}

/// A lone base `c`, followed by the selector of `p` when there is one, and
/// by an enclosing keycap when `keycap` holds.
pub open spec fn lone_base_text(c: char, p: Option<Presentation>, keycap: bool) -> Seq<char> {
    seq![c] + presentation_text(p) + if keycap {
        seq!['\u{20E3}']
    } else {
        Seq::empty()
    }
}

/// The presentation that the policy table gives a lone base spelled with `p`
/// under `rule`.
pub open spec fn table_presentation(rule: SingletonRule, p: Option<Presentation>) -> Option<
    Presentation,
> {
    match (rule, p) {
        (SingletonRule::TextToBare, Some(Presentation::Text)) => None,
        (SingletonRule::EmojiToBare, Some(Presentation::Emoji)) => None,
        (SingletonRule::BareToText, None) => Some(Presentation::Text),
        (SingletonRule::BareToEmoji, None) => Some(Presentation::Emoji),
        _ => p,
    }
}

/// Formatting applies the policy table to a lone variation-sequence base
/// (in the keycap domain before an enclosing keycap): in both policy sets,
/// `FE0E` becomes bare and bare stays bare; only in `prefer_bare`, `FE0F`
/// becomes bare and bare stays bare; only in `bare_as_text`, bare becomes
/// `FE0E`; in neither set, bare becomes `FE0F`; every other spelling stays.
///
/// `c` is a variation-sequence base with the Emoji property; the last two
/// clauses say that it is neither a presentation selector nor the joiner,
/// which holds of every listed base.
pub proof fn lemma_format_follows_policy(
    c: char,
    p: Option<Presentation>,
    keycap: bool,
    policy: Policy,
)
    requires
        emoji_char(c),
        has_vs(c),
        !is_selector_char(c),
        c != '\u{200D}',
    ensures
        format_output(lone_base_text(c, p, keycap), policy) == lone_base_text(
            c,
            table_presentation(policy.rule(c, keycap), p),
            keycap,
        ),
{
    let s = lone_base_text(c, p, keycap);
    assert(s.subrange(0, 0) =~= Seq::<char>::empty());
    assert(pending_wf(s, 0, 0, PendingModel::Empty));
    lemma_items_output_tokens(s, 0, 0, PendingModel::Empty, policy);
    assert(render_default(Seq::<ElementModel>::empty()) =~= Seq::<char>::empty());
    assert(format_output(s, policy) =~= tokens_output(s, 0, policy));
    let k: int = presentation_text(p).len() as int;
    let n: int = s.len() as int;
    let ms: Seq<ModificationModel> = if keycap {
        seq![ModificationModel::EnclosingKeycap { selectors: Seq::empty() }]
    } else {
        Seq::empty()
    };
    assert(s[0] == c);
    assert(!regional_indicator_char('\u{20E3}'));
    // The selector run after the base is the selector of `p`.
    assert(selector_end(s, 1) == 1 + k) by {
        reveal_with_fuel(run_end, 3);
        if keycap {
            assert(s[1 + k] == '\u{20E3}');
        }
    }
    assert(presentations(s, 1, 1 + k) =~= presentation_run(p));
    // What follows the selector run is the keycap, when there is one.
    assert(modifications_at(s, 1 + k) == (ms, n)) by {
        if keycap {
            assert(s[1 + k] == '\u{20E3}');
            assert(selector_end(s, 2 + k) == n) by {
                reveal_with_fuel(run_end, 2);
            }
            assert(presentations(s, 2 + k, n) =~= Seq::<Presentation>::empty());
            assert(modifications_at(s, n) == (Seq::<ModificationModel>::empty(), n));
            assert(seq![ModificationModel::EnclosingKeycap { selectors: Seq::empty() }]
                + Seq::<ModificationModel>::empty() =~= ms);
        }
    }
    let emoji = EmojiModel {
        stem: StemModel::SingletonBase { base: c, selectors: presentation_run(p) },
        modifiers: ms,
    };
    assert(token_at(s, 0) == (TokenModel::Emoji { emoji }, n));
    assert(tokens_output(s, n, policy) =~= Seq::<char>::empty());
    assert(tokens_output(s, 0, policy) == render_default(component_analysis(emoji, policy).elements)
        + tokens_output(s, n, policy));
    assert(stripped_modifications_text(ms) =~= if keycap {
        seq!['\u{20E3}']
    } else {
        Seq::<char>::empty()
    }) by {
        reveal_with_fuel(stripped_modifications_text, 2);
    }
    let run = presentation_run(p);
    let q = table_presentation(policy.rule(c, keycap), p);
    assert(base_outcome(c, run, first_modification(ms), policy) == policy_outcome(
        c,
        run,
        keycap,
        policy,
    ));
    assert(render_singleton(c, q, ms) =~= lone_base_text(c, q, keycap));
    match policy_outcome(c, run, keycap, policy) {
        BaseOutcome::Deterministic { canonical, counts } => {
            assert(canonical == q);
            let e = ElementModel::Fixed { text: render_singleton(c, q, ms) };
            assert(render_default(seq![e]) =~= render_singleton(c, q, ms)) by {
                assert(seq![e].drop_last() =~= Seq::<ElementModel>::empty());
            }
        },
        BaseOutcome::NeedsDecision { default, counts } => {
            assert(Some(default) == q);
            let e = ElementModel::Choice {
                default,
                text: render_singleton(c, Some(Presentation::Text), ms),
                emoji: render_singleton(c, Some(Presentation::Emoji), ms),
            };
            assert(render_default(seq![e]) =~= render_singleton(c, q, ms)) by {
                assert(seq![e].drop_last() =~= Seq::<ElementModel>::empty());
            }
        },
    }
}

/// A lone base `c`, followed by the selectors of `sels`, and by an
/// enclosing keycap when `keycap` holds.
pub open spec fn lone_base_run_text(c: char, sels: Seq<Presentation>, keycap: bool) -> Seq<char> {
    seq![c] + selector_chars(sels) + if keycap {
        seq!['\u{20E3}']
    } else {
        Seq::empty()
    }
}

/// Formatting a lone variation-sequence base followed by any run of
/// selectors (in the keycap domain before an enclosing keycap) removes every
/// selector after the first, and treats the first, or the bare base when
/// there is none, as the policy table says.
///
/// `c` is a variation-sequence base with the Emoji property; the last two
/// clauses say that it is neither a presentation selector nor the joiner,
/// which holds of every listed base.
pub proof fn lemma_format_lone_base_run(
    c: char,
    sels: Seq<Presentation>,
    keycap: bool,
    policy: Policy,
)
    requires
        emoji_char(c),
        has_vs(c),
        !is_selector_char(c),
        c != '\u{200D}',
    ensures
        format_output(lone_base_run_text(c, sels, keycap), policy) == lone_base_text(
            c,
            table_presentation(
                policy.rule(c, keycap),
                if sels.len() > 0 {
                    Some(sels[0])
                } else {
                    None
                },
            ),
            keycap,
        ),
{
    let s = lone_base_run_text(c, sels, keycap);
    assert(s.subrange(0, 0) =~= Seq::<char>::empty());
    assert(pending_wf(s, 0, 0, PendingModel::Empty));
    lemma_items_output_tokens(s, 0, 0, PendingModel::Empty, policy);
    assert(render_default(Seq::<ElementModel>::empty()) =~= Seq::<char>::empty());
    assert(format_output(s, policy) =~= tokens_output(s, 0, policy));
    let k: int = sels.len() as int;
    let n: int = s.len() as int;
    let ms: Seq<ModificationModel> = if keycap {
        seq![ModificationModel::EnclosingKeycap { selectors: Seq::empty() }]
    } else {
        Seq::empty()
    };
    assert(s[0] == c);
    assert(!regional_indicator_char('\u{20E3}'));
    assert forall|j: int| 1 <= j < 1 + k implies #[trigger] s[j] == selector_char(sels[j - 1])
        && is_selector_char(s[j]) && presentation_of(s[j]) == Some(sels[j - 1]) by {
        lemma_selector_round_trip(sels[j - 1]);
    }
    assert(selector_end(s, 1) == 1 + k) by {
        if keycap {
            assert(s[1 + k] == '\u{20E3}');
        }
        lemma_run_end_exact(s, 1, 1 + k, RunClass::Selector);
    }
    assert(presentations(s, 1, 1 + k) =~= sels);
    assert(modifications_at(s, 1 + k) == (ms, n)) by {
        if keycap {
            assert(s[1 + k] == '\u{20E3}');
            assert(selector_end(s, 2 + k) == n) by {
                reveal_with_fuel(run_end, 2);
            }
            assert(presentations(s, 2 + k, n) =~= Seq::<Presentation>::empty());
            assert(modifications_at(s, n) == (Seq::<ModificationModel>::empty(), n));
            assert(seq![ModificationModel::EnclosingKeycap { selectors: Seq::empty() }]
                + Seq::<ModificationModel>::empty() =~= ms);
        }
    }
    let emoji = EmojiModel {
        stem: StemModel::SingletonBase { base: c, selectors: sels },
        modifiers: ms,
    };
    assert(token_at(s, 0) == (TokenModel::Emoji { emoji }, n));
    assert(tokens_output(s, n, policy) =~= Seq::<char>::empty());
    assert(tokens_output(s, 0, policy) == render_default(component_analysis(emoji, policy).elements)
        + tokens_output(s, n, policy));
    assert(stripped_modifications_text(ms) =~= if keycap {
        seq!['\u{20E3}']
    } else {
        Seq::<char>::empty()
    }) by {
        reveal_with_fuel(stripped_modifications_text, 2);
    }
    let first = if k > 0 {
        Some(sels[0])
    } else {
        None
    };
    let q = table_presentation(policy.rule(c, keycap), first);
    assert(base_outcome(c, sels, first_modification(ms), policy) == policy_outcome(
        c,
        sels,
        keycap,
        policy,
    ));
    assert(render_singleton(c, q, ms) =~= lone_base_text(c, q, keycap));
    match policy_outcome(c, sels, keycap, policy) {
        BaseOutcome::Deterministic { canonical, counts } => {
            assert(canonical == q);
            let e = ElementModel::Fixed { text: render_singleton(c, q, ms) };
            assert(render_default(seq![e]) =~= render_singleton(c, q, ms)) by {
                assert(seq![e].drop_last() =~= Seq::<ElementModel>::empty());
            }
        },
        BaseOutcome::NeedsDecision { default, counts } => {
            assert(Some(default) == q);
            let e = ElementModel::Choice {
                default,
                text: render_singleton(c, Some(Presentation::Text), ms),
                emoji: render_singleton(c, Some(Presentation::Emoji), ms),
            };
            assert(render_default(seq![e]) =~= render_singleton(c, q, ms)) by {
                assert(seq![e].drop_last() =~= Seq::<ElementModel>::empty());
            }
        },
    }
}

} // verus!
