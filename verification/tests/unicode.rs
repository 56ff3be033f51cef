use evfmt::unicode::{
    has_variation_sequence, in_char_table, is_emoji, is_emoji_default, is_emoji_modifier, is_ri,
    is_tag, is_text_default, variation_sequence_chars, COMBINING_ENCLOSING_KEYCAP,
    EMOJI_MODIFIERS,
};

fn is_keycap_base(ch: char) -> bool {
    ch == '#' || ch == '*' || ch.is_ascii_digit()
}

#[test]
fn test_number_sign_has_variation_sequence() {
    assert!(has_variation_sequence('#'));
    assert!(is_text_default('#'));
    assert!(!is_emoji_default('#'));
}

#[test]
fn test_watch_is_emoji_default() {
    assert!(is_emoji_default('\u{231A}'));
    assert!(!is_text_default('\u{231A}'));
}

#[test]
fn test_copyright_is_text_default() {
    assert!(is_text_default('\u{00A9}'));
    assert!(!is_emoji_default('\u{00A9}'));
}

#[test]
fn test_letter_a_has_no_variation_sequence() {
    assert!(!has_variation_sequence('A'));
    assert!(!is_text_default('A'));
    assert!(!is_emoji_default('A'));
}

#[test]
fn test_sparkles_is_emoji_default() {
    assert!(is_emoji_default('\u{2728}'));
    assert!(!is_text_default('\u{2728}'));
}

#[test]
fn test_emoji_only_character_has_no_default_side() {
    // 😀 has Emoji_Presentation, but it is not listed in
    // emoji-variation-sequences.txt. The default-side predicates classify only
    // valid presentation-sequence bases, not every emoji-presentation character.
    assert!(is_emoji('\u{1F600}'));
    assert!(!has_variation_sequence('\u{1F600}'));
    assert!(!is_text_default('\u{1F600}'));
    assert!(!is_emoji_default('\u{1F600}'));
}

#[test]
fn test_variation_sequence_chars_contains_known_entries() {
    let chars: Vec<char> = variation_sequence_chars();
    assert!(chars.contains(&'#'));
    assert!(chars.contains(&'\u{00A9}'));
    assert!(!chars.contains(&'A'));
}

#[test]
fn in_char_table_finds_first_middle_and_last_entries() {
    assert!(in_char_table(&['a', 'm', 'z'], 'a'));
    assert!(in_char_table(&['a', 'm', 'z'], 'm'));
    assert!(!in_char_table(&['a', 'm', 'z'], '\0'));
}

#[test]
fn test_emoji_modifier_property() {
    assert!(is_emoji_modifier('\u{1F3FB}'));
    assert!(is_emoji_modifier('\u{1F3FF}'));
    assert!(!is_emoji_modifier('\u{1F468}'));
    assert!(!is_emoji_modifier('A'));
}

/// Drift watch for modification handling: emoji modifiers and the enclosing
/// keycap are sequence suffixes, not bases with their own VS15/VS16 policies.
#[test]
fn test_modification_suffixes_have_no_variation_sequences() {
    for &modifier in &EMOJI_MODIFIERS {
        assert!(
            !has_variation_sequence(modifier),
            "emoji modifier U+{:04X} unexpectedly has a variation sequence",
            modifier as u32,
        );
    }

    assert!(
        !has_variation_sequence(COMBINING_ENCLOSING_KEYCAP),
        "combining enclosing keycap unexpectedly has a variation sequence",
    );
}

#[test]
fn test_emoji_property() {
    // Keycap bases
    assert!(is_emoji('#'));
    assert!(is_emoji('*'));
    assert!(is_emoji('0'));
    assert!(is_emoji('9'));
    // Common emoji
    assert!(is_emoji('\u{231A}')); // watch
    assert!(is_emoji('\u{2728}')); // sparkles
    assert!(is_emoji('\u{1F600}')); // grinning face
    // Non-emoji
    assert!(!is_emoji('A'));
    assert!(!is_emoji('\u{0041}'));
}

#[test]
fn test_ri_property() {
    assert!(is_ri('\u{1F1E6}')); // Regional Indicator A
    assert!(is_ri('\u{1F1FF}')); // Regional Indicator Z
    assert!(!is_ri('\u{1F1E5}')); // just before range
    assert!(!is_ri('\u{1F200}')); // just after range
    assert!(!is_ri('A'));
}

#[test]
fn test_keycap_base() {
    assert!(is_keycap_base('#'));
    assert!(is_keycap_base('*'));
    assert!(is_keycap_base('0'));
    assert!(is_keycap_base('9'));
    assert!(!is_keycap_base('A'));
}

/// Drift watch for the singleton analysis rule cascade: keycap handling
/// assumes every keycap base has a sanctioned VS15/VS16 variation sequence
/// and is text-default (so rule 5 does not fire on it). If a future Unicode
/// upgrade changes either property the cascade needs updating.
#[test]
fn test_keycap_bases_have_text_default_variation_sequences() {
    for ch in ['#', '*', '0', '1', '2', '3', '4', '5', '6', '7', '8', '9'] {
        assert!(is_keycap_base(ch), "expected {ch:?} to be a keycap base");
        assert!(
            has_variation_sequence(ch),
            "keycap base {ch:?} missing standardized variation sequence",
        );
        assert!(
            is_text_default(ch),
            "keycap base {ch:?} expected to be text-default",
        );
        assert!(
            !is_emoji_default(ch),
            "keycap base {ch:?} expected to not be emoji-default",
        );
    }
}

#[test]
fn test_tag() {
    assert!(is_tag('\u{E0020}')); // tag space
    assert!(is_tag('\u{E007F}')); // cancel tag
    assert!(is_tag('\u{E0061}')); // tag lowercase a
    assert!(!is_tag('\u{E001F}')); // just before range
    assert!(!is_tag('\u{E0080}')); // just after range
}


#[test]
fn every_variation_sequence_base_is_an_emoji_other_than_selectors_and_joiner() {
    for ch in variation_sequence_chars() {
        assert!(is_emoji(ch), "{ch:?} lacks the Emoji property");
        assert!(ch != '\u{FE0E}' && ch != '\u{FE0F}' && ch != '\u{200D}');
    }
}
