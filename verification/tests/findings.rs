use evfmt::findings::{analyze_scan_item, Finding, NonCanonicality, ReplacementDecision};
use evfmt::policy::Policy;
use evfmt::scanner::{scan, ScanItem};

fn items(input: &str) -> Vec<ScanItem<'_>> {
    scan(input).into_items()
}

fn first_finding(input: &str) -> Finding<'_> {
    let items = items(input);
    let policy = Policy::default();
    items
        .iter()
        .find_map(|item| analyze_scan_item(item, &policy))
        .expect("input should produce a finding")
}

fn repaired(input: &str) -> String {
    let policy = Policy::default();
    items(input)
        .iter()
        .map(|item| {
            analyze_scan_item(item, &policy).map_or_else(
                || item.raw.to_owned(),
                |finding| finding.default_replacement().to_owned(),
            )
        })
        .collect()
}

#[test]
fn default_replacements_repair_the_text() {
    assert_eq!(repaired("A\u{FE0F}\u{00A9}"), "A\u{00A9}\u{FE0F}");
}

#[test]
fn stray_selector_is_unsanctioned_cleanup() {
    let finding = first_finding("A\u{FE0F}");
    assert_eq!(finding.non_canonicality(), NonCanonicality::new(1, 0, 0, 0));
    assert!(finding.decision_slots().is_empty());
    assert_eq!(finding.replacement(&[]), Some(String::new()));
}

#[test]
fn lone_selector_item_is_removed() {
    let item = items("\u{FE0F}").remove(0);
    let finding = analyze_scan_item(&item, &Policy::default()).unwrap();
    assert_eq!(finding.non_canonicality(), NonCanonicality::new(1, 0, 0, 0));
    assert_eq!(finding.replacement(&[]).unwrap(), "");
}

#[test]
fn plain_text_has_no_findings() {
    let policy = Policy::default();
    assert!(items("plain text")
        .iter()
        .all(|item| analyze_scan_item(item, &policy).is_none()));
}

#[test]
fn bare_text_default_base_offers_text_and_emoji() {
    let finding = first_finding("\u{00A9}");
    assert_eq!(finding.raw, "\u{00A9}");
    assert_eq!(finding.span, 0..2);
    assert_eq!(finding.non_canonicality(), NonCanonicality::new(0, 0, 0, 1));
    let slot = &finding.decision_slots()[0];
    assert_eq!(
        slot.choices(),
        &[ReplacementDecision::Text, ReplacementDecision::Emoji]
    );
    assert_eq!(slot.default_decision(), ReplacementDecision::Emoji);
    assert_eq!(finding.default_decisions(), vec![ReplacementDecision::Emoji]);
    assert_eq!(finding.default_replacement(), "\u{00A9}\u{FE0F}");
    assert_eq!(
        finding.replacement(&[ReplacementDecision::Text]).unwrap(),
        "\u{00A9}\u{FE0E}"
    );
    assert_eq!(
        finding.replacement(&[ReplacementDecision::Emoji]).unwrap(),
        "\u{00A9}\u{FE0F}"
    );
}

#[test]
fn wrong_length_decision_vector_is_refused() {
    let finding = first_finding("\u{00A9}");
    assert_eq!(finding.replacement(&[]), None);
    assert_eq!(
        finding.replacement(&[ReplacementDecision::Text, ReplacementDecision::Text]),
        None
    );
}

#[test]
fn default_decisions_select_default_replacement() {
    for input in ["\u{00A9}", "#\u{20E3}\u{200D}", "A\u{FE0F}", "\u{00A9}\u{200D}\u{00AE}"] {
        let finding = first_finding(input);
        assert_eq!(
            finding.replacement(&finding.default_decisions()).as_deref(),
            Some(finding.default_replacement())
        );
        assert_eq!(
            finding.decision_slots().len(),
            finding.non_canonicality().bases_to_resolve
        );
    }
}

#[test]
fn redundant_text_selector_on_ascii_is_dropped() {
    let finding = first_finding("#\u{FE0E}");
    assert_eq!(finding.non_canonicality(), NonCanonicality::new(0, 0, 1, 0));
    assert_eq!(finding.default_replacement(), "#");
}

#[test]
fn emoji_modifier_takes_bare_base_and_drops_every_selector() {
    let finding = first_finding("\u{270C}\u{FE0F}\u{1F3FB}");
    assert_eq!(finding.non_canonicality(), NonCanonicality::new(1, 0, 0, 0));
    assert_eq!(finding.default_replacement(), "\u{270C}\u{1F3FB}");

    let finding = first_finding("\u{270C}\u{FE0E}\u{1F3FB}");
    assert_eq!(finding.non_canonicality(), NonCanonicality::new(1, 0, 0, 0));
    assert_eq!(finding.default_replacement(), "\u{270C}\u{1F3FB}");
}

#[test]
fn tag_context_without_emoji_selector_is_a_defect() {
    let finding = first_finding("\u{00A9}\u{E0067}");
    assert_eq!(finding.non_canonicality(), NonCanonicality::new(0, 1, 0, 0));
    assert_eq!(finding.default_replacement(), "\u{00A9}\u{FE0F}\u{E0067}");
}

#[test]
fn tag_context_trailing_selector_is_cleanup() {
    let finding = first_finding("\u{1F3F4}\u{E0067}\u{FE0F}");
    assert_eq!(finding.non_canonicality(), NonCanonicality::new(1, 0, 0, 0));
    assert_eq!(finding.default_replacement(), "\u{1F3F4}\u{E0067}");
}

#[test]
fn base_without_variation_sequence_loses_its_selector() {
    let finding = first_finding("\u{1F600}\u{FE0F}\u{20E3}\u{FE0E}");
    assert_eq!(finding.non_canonicality(), NonCanonicality::new(1, 0, 0, 0));
    assert_eq!(finding.default_replacement(), "\u{1F600}\u{20E3}");
}

#[test]
fn keycap_base_resolves_in_the_keycap_domain() {
    let finding = first_finding("#\u{20E3}\u{200D}\u{FE0F}");
    assert_eq!(finding.non_canonicality(), NonCanonicality::new(1, 0, 0, 1));
    assert_eq!(finding.default_replacement(), "#\u{FE0E}\u{20E3}\u{200D}");
    assert_eq!(
        finding.replacement(&[ReplacementDecision::Emoji]),
        Some("#\u{FE0F}\u{20E3}\u{200D}".to_owned())
    );
}

#[test]
fn zwj_chain_keeps_one_slot_per_bare_base() {
    let finding = first_finding("\u{00A9}\u{200D}\u{00AE}");
    assert_eq!(finding.non_canonicality(), NonCanonicality::new(0, 0, 0, 2));
    assert_eq!(
        finding
            .replacement(&[ReplacementDecision::Text, ReplacementDecision::Emoji])
            .unwrap(),
        "\u{00A9}\u{FE0E}\u{200D}\u{00AE}\u{FE0F}"
    );
}

#[test]
fn summaries_add_field_by_field() {
    let sum = NonCanonicality::new(1, 2, 3, 4) + NonCanonicality::new(4, 3, 2, 1);
    assert_eq!(sum, NonCanonicality::new(5, 5, 5, 5));
    assert_eq!(NonCanonicality::default(), NonCanonicality::new(0, 0, 0, 0));
}
