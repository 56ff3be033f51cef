use evfmt::formatter::{format_text, FormatResult};
use evfmt::policy::Policy;
use evfmt::presentation::Presentation;
use evfmt::scanner::{scan as scan_items, EmojiLike, EmojiSequence, EmojiStem, ScanItem, ScanKind};
use evfmt::unicode;

/// Collect scan items into a Vec for testing.
fn scan(input: &str) -> Vec<ScanItem<'_>> {
    scan_items(input).into_items()
}

/// Reconstruct input from scan items.
fn reconstruct(items: &[ScanItem<'_>]) -> String {
    items.iter().map(|it| it.raw).collect()
}

fn default_policy() -> Policy {
    Policy::default()
}

fn assert_format(input: &str, expected: &FormatResult) {
    assert_eq!(&format_text(input, &default_policy()), expected);
}

#[test]
fn scanner_is_lossless_for_representative_inputs() {
    for input in [
        "Hello, world!",
        "#",
        "#\u{FE0F}",
        "\u{00A9}\u{FE0E}",
        "\u{2728}",
        "#\u{FE0F}\u{20E3}",
        "#\u{20E3}",
        "#\u{FE0E}\u{20E3}",
        "\u{2764}\u{200D}\u{1F525}",
        "\u{FE0F}",
        "\u{FE0E}hello",
        "A\u{FE0F}",
        "Hello #\u{FE0F}\u{20E3} world \u{00A9}\u{FE0E} \u{2764}\u{FE0F}\u{200D}\u{1F525}",
    ] {
        assert_eq!(reconstruct(&scan(input)), input, "input: {input:?}");
    }
}

#[test]
fn scanner_emits_no_empty_items_around_structural_boundaries() {
    for input in [
        "plain",
        "plain\u{FE0F}",
        "\u{FE0F}plain",
        "\u{200D}\u{FE0F}plain#\u{20E3}",
        "plain\u{2764}\u{200D}\u{1F525}tail",
    ] {
        for item in scan(input) {
            assert!(!item.raw.is_empty(), "empty item in scan of {input:?}");
            assert!(item.span.start < item.span.end, "empty span for {item:?}");
        }
    }
}

#[test]
fn unpaired_regional_indicator_scans_as_singleton_stem() {
    let items = scan("\u{1F1E6}\u{FE0F}x");

    assert_eq!(items.len(), 2);
    assert_eq!(items[0].raw, "\u{1F1E6}\u{FE0F}");
    assert_eq!(items[1].raw, "x");
    assert!(matches!(
        &items[0].kind,
        ScanKind::EmojiSequence(EmojiSequence::EmojiHeaded {
            first: EmojiLike {
                stem: EmojiStem::SingletonBase {
                    base: '\u{1F1E6}',
                    presentation_selectors_after_base,
                },
                modifiers,
                ..
            },
            joined,
            trailing_links,
        }) if presentation_selectors_after_base == &[Presentation::Emoji]
            && modifiers.is_empty()
            && joined.is_empty()
            && trailing_links.is_empty()
    ));
}

#[test]
fn presentation_from_selector_only_accepts_vs15_and_vs16() {
    assert_eq!(
        Presentation::from_selector(unicode::TEXT_PRESENTATION_SELECTOR),
        Some(Presentation::Text)
    );
    assert_eq!(
        Presentation::from_selector(unicode::EMOJI_PRESENTATION_SELECTOR),
        Some(Presentation::Emoji)
    );
    assert_eq!(Presentation::from_selector('A'), None);
    assert_eq!(Presentation::from_selector(unicode::ZWJ), None);
}

#[test]
fn zwj_related_selector_cases_match_formatter_contract() {
    assert_format(
        "\u{2764}\u{200D}\u{1F525}",
        &FormatResult::Changed("\u{2764}\u{FE0F}\u{200D}\u{1F525}".to_owned()),
    );
    assert_format(
        "\u{1F525}\u{200D}\u{FE0F}\u{2764}",
        &FormatResult::Changed("\u{1F525}\u{200D}\u{2764}\u{FE0F}".to_owned()),
    );
    assert_format(
        "\u{00A1}\u{FE0E}\u{200D}",
        &FormatResult::Changed("\u{00A1}\u{200D}".to_owned()),
    );
    assert_format(
        "\u{200D}\u{FE0F}\u{231A}",
        &FormatResult::Changed("\u{200D}\u{231A}".to_owned()),
    );
}

#[test]
fn permissive_modifier_and_flag_cases_match_formatter_contract() {
    assert_format("#\u{1F3FB}\u{200D}", &FormatResult::Unchanged);
    assert_format(
        "\u{1F1E6}\u{FE0F}\u{1F1E8}\u{FE0E}",
        &FormatResult::Changed("\u{1F1E6}\u{1F1E8}".to_owned()),
    );
}
