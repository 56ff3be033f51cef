use evfmt::analysis::analyze_scan_item;
use evfmt::formatter::{format_text, FormatResult};
use evfmt::policy::Policy;
use evfmt::scanner::scan;
use evfmt::unicode;
use evfmt::variation_set::{self, VariationSet};

fn default_policy() -> Policy {
    Policy::default()
}

fn bool_variation_set(matches: bool) -> VariationSet {
    if matches {
        VariationSet::all()
    } else {
        VariationSet::none()
    }
}

fn formatted_output(input: &str, policy: &Policy) -> String {
    match format_text(input, policy) {
        FormatResult::Unchanged => input.to_owned(),
        FormatResult::Changed(output) => output,
    }
}

#[test]
fn plain_ascii_is_unchanged() {
    assert_eq!(
        format_text("Hello, world!", &default_policy()),
        FormatResult::Unchanged
    );
}

#[test]
fn standalone_ascii_default_policy_prefers_bare_text_side() {
    let policy = default_policy();

    assert_eq!(format_text("#", &policy), FormatResult::Unchanged);
    assert_eq!(
        format_text("#\u{FE0E}", &policy),
        FormatResult::Changed("#".to_owned())
    );
    assert_eq!(format_text("#\u{FE0F}", &policy), FormatResult::Unchanged);
}

#[test]
fn standalone_text_default_non_ascii_default_policy_resolves_bare_to_emoji() {
    let policy = default_policy();

    assert_eq!(
        format_text("\u{00A9}", &policy),
        FormatResult::Changed("\u{00A9}\u{FE0F}".to_owned())
    );
    assert_eq!(
        format_text("\u{00A9}\u{FE0E}", &policy),
        FormatResult::Unchanged
    );
    assert_eq!(
        format_text("\u{00A9}\u{FE0F}", &policy),
        FormatResult::Unchanged
    );
}

#[test]
fn standalone_emoji_default_non_ascii_default_policy_prefers_bare_emoji_side() {
    let policy = default_policy();

    assert_eq!(format_text("\u{2728}", &policy), FormatResult::Unchanged);
    assert_eq!(
        format_text("\u{2728}\u{FE0E}", &policy),
        FormatResult::Unchanged
    );
    assert_eq!(
        format_text("\u{2728}\u{FE0F}", &policy),
        FormatResult::Changed("\u{2728}".to_owned())
    );
}

#[test]
fn unsanctioned_selectors_are_removed() {
    let policy = default_policy();

    assert_eq!(
        format_text("A\u{FE0F}", &policy),
        FormatResult::Changed("A".to_owned())
    );
    assert_eq!(
        format_text("\u{FE0F}hello", &policy),
        FormatResult::Changed("hello".to_owned())
    );
}

#[test]
fn extra_selector_after_meaningful_selector_is_removed() {
    assert_eq!(
        format_text("#\u{FE0F}\u{FE0E}", &default_policy()),
        FormatResult::Changed("#\u{FE0F}".to_owned())
    );
}

#[test]
fn keycap_cleanup_follows_current_sequence_contract() {
    let policy = default_policy();

    assert_eq!(
        format_text("#\u{FE0F}\u{20E3}", &policy),
        FormatResult::Unchanged
    );
    assert_eq!(
        format_text("#\u{20E3}", &policy),
        FormatResult::Changed("#\u{FE0E}\u{20E3}".to_owned())
    );
    // ZWJ context no longer overrides the component's own keycap policy.
    assert_eq!(
        format_text("#\u{FE0E}\u{20E3}", &policy),
        FormatResult::Unchanged
    );
    assert_eq!(
        format_text("#\u{FE0E}\u{20E3}\u{200D}\u{1F525}", &policy),
        FormatResult::Unchanged
    );
    assert_eq!(
        format_text("\u{26A0}\u{20E3}", &policy),
        FormatResult::Changed("\u{26A0}\u{FE0E}\u{20E3}".to_owned())
    );
    assert_eq!(
        format_text("#\u{20E3}\u{FE0F}", &policy),
        FormatResult::Changed("#\u{FE0E}\u{20E3}".to_owned())
    );
}

#[test]
fn keycap_policy_can_select_bare_text_or_emoji_outputs() {
    let emoji_policy = Policy::default().with_bare_as_text(VariationSet::none());
    assert_eq!(
        format_text("#\u{20E3}", &emoji_policy),
        FormatResult::Changed("#\u{FE0F}\u{20E3}".to_owned())
    );

    let bare_text_policy = Policy::default()
        .with_prefer_bare(variation_set::keycap_chars())
        .with_bare_as_text(variation_set::keycap_chars());
    assert_eq!(
        format_text("#\u{FE0E}\u{20E3}", &bare_text_policy),
        FormatResult::Changed("#\u{20E3}".to_owned())
    );
    assert_eq!(
        format_text("#\u{20E3}", &bare_text_policy),
        FormatResult::Unchanged
    );
}

#[test]
fn keycap_policy_uses_first_modification_only() {
    let policy = default_policy();

    assert_eq!(
        format_text("#\u{20E3}\u{1F3FB}", &policy),
        FormatResult::Changed("#\u{FE0E}\u{20E3}\u{1F3FB}".to_owned())
    );
    assert_eq!(
        format_text("#\u{20E3}\u{1F3FB}\u{FE0F}", &policy),
        FormatResult::Changed("#\u{FE0E}\u{20E3}\u{1F3FB}".to_owned())
    );
}

#[test]
fn modifier_context_preserves_sanctioned_text_presentation() {
    let policy = default_policy();

    assert_eq!(
        format_text("\u{270C}\u{FE0E}\u{1F3FB}", &policy),
        FormatResult::Unchanged
    );
    assert_eq!(
        format_text("\u{270C}\u{FE0F}\u{1F3FB}", &policy),
        FormatResult::Changed("\u{270C}\u{1F3FB}".to_owned())
    );
}

#[test]
fn zwj_cleanup_uses_component_local_rules() {
    let policy = default_policy();

    assert_eq!(
        format_text("\u{2764}\u{200D}\u{1F525}", &policy),
        FormatResult::Changed("\u{2764}\u{FE0F}\u{200D}\u{1F525}".to_owned())
    );
    assert_eq!(
        format_text("\u{2764}\u{FE0F}\u{200D}\u{1F525}", &policy),
        FormatResult::Unchanged
    );
    assert_eq!(
        format_text("\u{2764}\u{FE0E}\u{200D}\u{1F525}", &policy),
        FormatResult::Unchanged
    );
    assert_eq!(
        format_text("\u{1F600}\u{FE0F}\u{200D}\u{1F525}", &policy),
        FormatResult::Changed("\u{1F600}\u{200D}\u{1F525}".to_owned())
    );
}

#[test]
fn mixed_content_formats_only_structural_items() {
    let policy = default_policy();

    assert_eq!(
        format_text("Press # for \u{00A9}", &policy),
        FormatResult::Changed("Press # for \u{00A9}\u{FE0F}".to_owned())
    );
}

#[derive(Debug, Clone, Copy)]
enum InputSelector {
    Bare,
    Text,
    Emoji,
}

#[derive(Debug, Clone, Copy)]
struct PolicyFlags {
    prefer_bare: bool,
    bare_as_text: bool,
}

fn build_input(ch: char, selector: InputSelector) -> String {
    let mut input = String::new();
    input.push(ch);
    match selector {
        InputSelector::Bare => {}
        InputSelector::Text => input.push(unicode::TEXT_PRESENTATION_SELECTOR),
        InputSelector::Emoji => input.push(unicode::EMOJI_PRESENTATION_SELECTOR),
    }
    input
}

fn expected_standalone(ch: char, selector: InputSelector, policy: PolicyFlags) -> String {
    let mut output = String::new();
    output.push(ch);

    match (policy.prefer_bare, policy.bare_as_text, selector) {
        (true, true, InputSelector::Text)
        | (true, false, InputSelector::Emoji)
        | (true, _, InputSelector::Bare) => {}
        (false, true, InputSelector::Bare) | (_, _, InputSelector::Text) => {
            output.push(unicode::TEXT_PRESENTATION_SELECTOR);
        }
        (false, false, InputSelector::Bare) | (_, _, InputSelector::Emoji) => {
            output.push(unicode::EMOJI_PRESENTATION_SELECTOR);
        }
    }

    output
}

#[test]
fn exhaustive_standalone_variation_sequence_policy_table() {
    let policies = [
        PolicyFlags {
            prefer_bare: false,
            bare_as_text: false,
        },
        PolicyFlags {
            prefer_bare: false,
            bare_as_text: true,
        },
        PolicyFlags {
            prefer_bare: true,
            bare_as_text: false,
        },
        PolicyFlags {
            prefer_bare: true,
            bare_as_text: true,
        },
    ];
    let selectors = [
        InputSelector::Bare,
        InputSelector::Text,
        InputSelector::Emoji,
    ];

    for (ch, _) in unicode::VARIATION_ENTRIES {
        for policy_flags in policies {
            let policy = Policy::default()
                .with_prefer_bare(bool_variation_set(policy_flags.prefer_bare))
                .with_bare_as_text(bool_variation_set(policy_flags.bare_as_text));

            for selector in selectors {
                let input = build_input(ch, selector);
                let actual = formatted_output(&input, &policy);
                let expected = expected_standalone(ch, selector, policy_flags);

                assert_eq!(
                    actual, expected,
                    "U+{:04X} selector={selector:?} policy={policy_flags:?}",
                    ch as u32
                );
            }
        }
    }
}


#[test]
fn default_policy_examples_from_crate_overview() {
    let policy = Policy::default();
    assert_eq!(
        format_text("#\u{FE0E}", &policy),
        FormatResult::Changed("#".to_owned())
    );
    assert_eq!(
        format_text("\u{00A9}", &policy),
        FormatResult::Changed("\u{00A9}\u{FE0F}".to_owned())
    );
    assert_eq!(format_text("\u{2728}", &policy), FormatResult::Unchanged);
    assert_eq!(format_text("plain text", &policy), FormatResult::Unchanged);
}

#[test]
fn rights_marks_policy_keeps_bare_copyright() {
    let ascii_and_rights_marks = variation_set::ascii() | variation_set::rights_marks();
    let policy = Policy::default()
        .with_prefer_bare(ascii_and_rights_marks)
        .with_bare_as_text(ascii_and_rights_marks);
    assert_eq!(format_text("\u{00A9}", &policy), FormatResult::Unchanged);
}

#[test]
fn modified_policies_apply_set_operations_to_current_sets() {
    let policy = Policy::default().modify_prefer_bare(|set| set | variation_set::text_defaults());
    assert_eq!(
        format_text("\u{00A9}\u{FE0F}", &policy),
        FormatResult::Changed("\u{00A9}".to_owned())
    );
    let policy = Policy::default().modify_bare_as_text(|set| set | variation_set::text_defaults());
    assert_eq!(
        format_text("\u{00A9}", &policy),
        FormatResult::Changed("\u{00A9}\u{FE0E}".to_owned())
    );
    let policy = Policy::default()
        .with_prefer_bare(VariationSet::none())
        .with_bare_as_text(VariationSet::all());
    assert_eq!(
        format_text("\u{00A9}", &policy),
        FormatResult::Changed("\u{00A9}\u{FE0E}".to_owned())
    );
}

#[test]
fn formatting_keeps_everything_but_selectors() {
    let policy = Policy::default();
    let input = "x\u{FE0F}\u{200D}\u{FE0E}\u{00A9}#\u{20E3}\u{1F1E6}\u{FE0F}\u{1F1E8}";
    let output = formatted_output(input, &policy);
    let strip = |s: &str| s.chars().filter(|c| *c != '\u{FE0E}' && *c != '\u{FE0F}').collect::<String>();
    assert_eq!(strip(&output), strip(input));
    assert_eq!(output, "x\u{200D}\u{00A9}\u{FE0F}#\u{FE0E}\u{20E3}\u{1F1E6}\u{1F1E8}");
}

const SAMPLES: [&str; 12] = [
    "plain text",
    "#\u{FE0E} and \u{00A9}",
    "A\u{FE0F}\u{FE0E}B",
    "\u{270C}\u{FE0F}\u{FE0E}\u{1F3FB}",
    "#\u{20E3}\u{200D}\u{FE0F}\u{00A9}",
    "\u{1F3F4}\u{E0067}\u{FE0F}\u{E0062}\u{FE0E}\u{E007F}",
    "\u{1F1E6}\u{FE0F}\u{1F1E8}\u{FE0E}x",
    "x\u{FE0F}\u{20E3}",
    "\u{200D}\u{FE0F}\u{200D}\u{2728}\u{FE0E}",
    "\u{00A9}\u{E0067}\u{00AE}\u{FE0F}\u{FE0F}",
    "\u{1F600}\u{FE0F}\u{20E3}\u{FE0E}\u{2122}",
    "\u{2194}\u{FE0E}\u{200D}\u{2660}\u{200D}\u{2665}\u{FE0F}",
];

#[test]
fn formatting_twice_changes_nothing() {
    let policies = [
        default_policy(),
        default_policy()
            .with_prefer_bare(VariationSet::none())
            .with_bare_as_text(VariationSet::none()),
        default_policy()
            .with_prefer_bare(VariationSet::all())
            .with_bare_as_text(VariationSet::all()),
        default_policy()
            .with_prefer_bare(variation_set::ascii())
            .with_bare_as_text(variation_set::text_defaults()),
    ];
    for policy in &policies {
        for input in SAMPLES {
            let once = formatted_output(input, policy);
            assert_eq!(format_text(&once, policy), FormatResult::Unchanged, "{input:?}");
        }
    }
}

#[test]
fn formatted_text_has_no_findings() {
    let policy = default_policy();
    for input in SAMPLES {
        let once = formatted_output(input, &policy);
        for item in scan(&once).into_items() {
            assert_eq!(analyze_scan_item(&item, &policy), None, "{input:?}");
        }
    }
}
