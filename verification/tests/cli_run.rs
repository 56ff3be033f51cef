use evfmt::cli_args::{OperationId, OrderedOperation};
use evfmt::cli_run::{
    build_runtime_settings, edit_distance, named_set_names, parse_ignore_list,
    parse_variation_set_list, suggest_name, CliParseError, ExitStatus, IgnoreLabel,
    IgnoreSettings, RuntimeOperation, UpdateKind,
};
use evfmt::formatter::{format_text, FormatResult};
use evfmt::variation_set::VariationSet;

fn operation(id: OperationId, value: &str) -> OrderedOperation {
    OrderedOperation {
        id,
        value: value.to_owned(),
    }
}

fn assert_parse_error<T>(result: Result<T, CliParseError>, expected: &str) {
    let Err(error) = result else {
        panic!("parse should fail");
    };
    assert!(
        error.to_string().contains(expected),
        "expected error containing {expected:?}, got {}",
        error.to_string()
    );
}

#[test]
fn exit_status_codes_match_cli_contract() {
    assert_eq!(ExitStatus::Success.code(), 0);
    assert_eq!(ExitStatus::CheckFoundChanges.code(), 1);
    assert_eq!(ExitStatus::UsageOrIoError.code(), 2);
}

#[test]
fn ignore_settings_apply_label_updates() {
    let mut settings = IgnoreSettings::from_labels(&[IgnoreLabel::Git]);

    assert!(settings.git);
    assert!(!settings.evfmt);
    assert!(!settings.hidden);

    settings.enable(&[IgnoreLabel::Evfmt, IgnoreLabel::Hidden]);
    assert!(settings.git);
    assert!(settings.evfmt);
    assert!(settings.hidden);

    settings.disable(&[IgnoreLabel::Git, IgnoreLabel::Hidden]);
    assert!(!settings.git);
    assert!(settings.evfmt);
    assert!(!settings.hidden);
}

#[test]
fn variation_set_lists_parse_shortcuts_and_comma_lists() {
    let all = parse_variation_set_list(UpdateKind::Add, "all").unwrap();
    assert!(all.contains('#'));
    assert!(all.contains_keycap('#'));
    assert!(all.contains('\u{00A9}'));

    assert_eq!(
        parse_variation_set_list(UpdateKind::Replace, "none").unwrap(),
        VariationSet::none()
    );

    let set =
        parse_variation_set_list(UpdateKind::Add, " ascii, u(00A9), k(0023), *\u{FE0F} ").unwrap();
    assert!(set.contains('#'));
    assert!(set.contains('*'));
    assert!(set.contains('\u{00A9}'));
    assert!(set.contains_keycap('#'));
    assert!(!set.contains('\u{2728}'));

    let text_defaults = parse_variation_set_list(UpdateKind::Add, "text-defaults").unwrap();
    assert!(text_defaults.contains('\u{00A9}'));
    assert!(!text_defaults.contains('\u{2728}'));

    let emoji_defaults = parse_variation_set_list(UpdateKind::Add, "emoji-defaults").unwrap();
    assert!(emoji_defaults.contains('\u{2728}'));
    assert!(!emoji_defaults.contains('\u{00A9}'));

    let arrows = parse_variation_set_list(UpdateKind::Add, "arrows").unwrap();
    assert!(arrows.contains('\u{2194}'));
    assert!(!arrows.contains('\u{2660}'));

    let keycap_chars = parse_variation_set_list(UpdateKind::Add, "keycap-chars").unwrap();
    assert!(!keycap_chars.contains('#'));
    assert!(keycap_chars.contains_keycap('#'));

    let keycap_emojis = parse_variation_set_list(UpdateKind::Add, "keycap-emojis").unwrap();
    assert!(keycap_emojis.contains_keycap('#'));
    assert!(!keycap_emojis.contains_keycap('\u{00A9}'));
}

#[test]
fn variation_set_lists_reject_invalid_shortcut_usage() {
    assert_parse_error(
        parse_variation_set_list(UpdateKind::Add, "none"),
        "`none` is only allowed",
    );
    assert_parse_error(
        parse_variation_set_list(UpdateKind::Replace, "all,ascii"),
        "`all` and `none` must appear alone",
    );
    assert_parse_error(parse_variation_set_list(UpdateKind::Replace, ""), "empty list");
    assert_parse_error(
        parse_variation_set_list(UpdateKind::Replace, "ascii,"),
        "empty list item",
    );
}

#[test]
fn variation_set_items_report_specific_errors() {
    assert_parse_error(
        parse_variation_set_list(UpdateKind::Replace, "arowws"),
        "unknown variation set preset `arowws`; did you mean `arrows`?",
    );
    assert_parse_error(
        parse_variation_set_list(UpdateKind::Replace, "card_suit"),
        "did you mean `card-suits`?",
    );
    assert_parse_error(
        parse_variation_set_list(UpdateKind::Replace, "u(110000)"),
        "invalid code point item",
    );
    assert_parse_error(
        parse_variation_set_list(UpdateKind::Replace, "u(00ag)"),
        "invalid code point item",
    );
    assert_parse_error(
        parse_variation_set_list(UpdateKind::Replace, "u(00A9"),
        "invalid code point item",
    );
    assert_parse_error(
        parse_variation_set_list(UpdateKind::Replace, "u(0041)"),
        "not eligible for emoji variation selectors",
    );
    assert_parse_error(
        parse_variation_set_list(UpdateKind::Replace, "A"),
        "not eligible for emoji variation selectors",
    );
    assert_parse_error(
        parse_variation_set_list(UpdateKind::Replace, "\u{00A9}#"),
        "invalid variation set item",
    );
}

#[test]
fn ignore_lists_parse_shortcuts_and_labels() {
    assert_eq!(
        parse_ignore_list(UpdateKind::Replace, "none").unwrap(),
        Vec::<IgnoreLabel>::new()
    );
    assert_eq!(
        parse_ignore_list(UpdateKind::Remove, "all").unwrap(),
        [IgnoreLabel::Git, IgnoreLabel::Evfmt, IgnoreLabel::Hidden]
    );
    assert_eq!(
        parse_ignore_list(UpdateKind::Add, " git, hidden ").unwrap(),
        [IgnoreLabel::Git, IgnoreLabel::Hidden]
    );
}

#[test]
fn ignore_lists_reject_invalid_labels() {
    assert_parse_error(
        parse_ignore_list(UpdateKind::Add, "none"),
        "`none` is only allowed with `--set-ignore`",
    );
    assert_parse_error(
        parse_ignore_list(UpdateKind::Replace, "hdden"),
        "did you mean `hidden`?",
    );
    assert_parse_error(parse_ignore_list(UpdateKind::Replace, "  "), "empty list");
    assert_parse_error(
        parse_ignore_list(UpdateKind::Replace, "git,"),
        "empty list item",
    );
}

#[test]
fn policy_operations_apply_to_their_target_in_order() {
    let settings = build_runtime_settings(&[
        operation(OperationId::SetPreferBare, "none"),
        operation(OperationId::AddPreferBare, "rights-marks"),
        operation(OperationId::RemovePreferBare, "u(00AE)"),
        operation(OperationId::SetBareAsText, "all"),
        operation(OperationId::RemoveBareAsText, "ascii"),
        operation(OperationId::AddBareAsText, "card-suits"),
        operation(OperationId::SetIgnore, "none"),
    ])
    .unwrap();

    assert_eq!(
        format_text("\u{00A9}", &settings.policy),
        FormatResult::Unchanged
    );
    assert_eq!(
        format_text("\u{00AE}", &settings.policy),
        FormatResult::Changed("\u{00AE}\u{FE0E}".to_owned())
    );
    assert_eq!(
        format_text("#", &settings.policy),
        FormatResult::Changed("#\u{FE0F}".to_owned())
    );
    assert_eq!(
        format_text("\u{2660}", &settings.policy),
        FormatResult::Changed("\u{2660}\u{FE0E}".to_owned())
    );
}

#[test]
fn ignore_operations_apply_left_to_right() {
    let settings = build_runtime_settings(&[
        operation(OperationId::SetIgnore, "none"),
        operation(OperationId::AddIgnore, "git,hidden"),
        operation(OperationId::RemoveIgnore, "hidden"),
        operation(OperationId::AddPreferBare, "rights-marks"),
    ])
    .unwrap();

    assert!(settings.ignore.git);
    assert!(!settings.ignore.evfmt);
    assert!(!settings.ignore.hidden);
}

#[test]
fn update_kind_helpers_classify_operation_ids() {
    assert_eq!(
        OperationId::SetPreferBare.runtime_operation(),
        RuntimeOperation::PreferBare(UpdateKind::Replace)
    );
    assert_eq!(
        OperationId::AddBareAsText.runtime_operation(),
        RuntimeOperation::BareAsText(UpdateKind::Add)
    );
    assert_eq!(
        OperationId::RemoveIgnore.runtime_operation(),
        RuntimeOperation::Ignore(UpdateKind::Remove)
    );
}

#[test]
fn edit_distance_supports_suggestions_threshold() {
    assert_eq!(edit_distance("hdden", "hidden"), 1);
    assert_eq!(edit_distance("", "abc"), 3);
    assert_eq!(edit_distance("abc", ""), 3);
    assert_eq!(edit_distance("abc", "a"), 2);
    assert_eq!(edit_distance("abc", "ac"), 1);
    assert_eq!(edit_distance("kitten", "sitting"), 3);
    assert_eq!(suggest_name("abd", &["abc", "abe"]), Some("abc"));
    assert_eq!(suggest_name("arr", &named_set_names()), Some("arrows"));
    assert_eq!(suggest_name("unrelated", &named_set_names()), None);
    assert_eq!(
        suggest_name("card-suit", &named_set_names()),
        Some("card-suits")
    );
}

#[test]
fn flag_names_match_public_options() {
    assert_eq!(OperationId::SetPreferBare.flag_name(), "--set-prefer-bare");
    assert_eq!(OperationId::AddPreferBare.flag_name(), "--add-prefer-bare");
    assert_eq!(
        OperationId::RemovePreferBare.flag_name(),
        "--remove-prefer-bare"
    );
    assert_eq!(OperationId::SetBareAsText.flag_name(), "--set-bare-as-text");
    assert_eq!(OperationId::AddBareAsText.flag_name(), "--add-bare-as-text");
    assert_eq!(
        OperationId::RemoveBareAsText.flag_name(),
        "--remove-bare-as-text"
    );
    assert_eq!(OperationId::SetIgnore.flag_name(), "--set-ignore");
    assert_eq!(OperationId::AddIgnore.flag_name(), "--add-ignore");
    assert_eq!(OperationId::RemoveIgnore.flag_name(), "--remove-ignore");
}

// --- Further cases ---

#[test]
fn default_ignore_settings_enable_every_filter() {
    let settings = IgnoreSettings::default();
    assert!(settings.git && settings.evfmt && settings.hidden);
}

#[test]
fn empty_operation_list_keeps_ascii_policy_and_all_filters() {
    let settings = build_runtime_settings(&[]).unwrap();
    assert!(settings.ignore.git && settings.ignore.evfmt && settings.ignore.hidden);
    // `#` is ASCII: bare stays bare, text selector is redundant.
    assert_eq!(format_text("#", &settings.policy), FormatResult::Unchanged);
    assert_eq!(
        format_text("#\u{FE0E}", &settings.policy),
        FormatResult::Changed("#".to_owned())
    );
    // `©` is outside both sets: bare resolves to emoji.
    assert_eq!(
        format_text("\u{00A9}", &settings.policy),
        FormatResult::Changed("\u{00A9}\u{FE0F}".to_owned())
    );
}

#[test]
fn first_bad_operation_names_its_flag() {
    let Err(error) = build_runtime_settings(&[
        operation(OperationId::AddPreferBare, "rights-marks"),
        operation(OperationId::SetBareAsText, "arowws"),
        operation(OperationId::AddIgnore, "nope"),
    ]) else {
        panic!("settings should fail");
    };
    assert_eq!(error.flag, "--set-bare-as-text");
    assert_eq!(
        error.error.to_string(),
        "unknown variation set preset `arowws`; did you mean `arrows`?"
    );
}

#[test]
fn none_with_add_operation_names_its_flag() {
    let Err(error) = build_runtime_settings(&[operation(OperationId::AddPreferBare, "none")])
    else {
        panic!("settings should fail");
    };
    assert_eq!(error.flag, "--add-prefer-bare");
    assert_eq!(
        error.error.to_string(),
        "`none` is only allowed with `--set-*`"
    );
}

#[test]
fn variation_items_report_exact_messages() {
    let cases = [
        ("u(0041)", "character `u(0041)` is not eligible for emoji variation selectors"),
        ("u(D800)", "invalid code point item `u(D800)`"),
        ("k(12)", "invalid code point item `k(12)`"),
        ("x y", "invalid variation set item `x y`"),
        ("zzzzzzzz", "unknown variation set preset `zzzzzzzz`"),
        ("ascii,,arrows", "empty list item"),
    ];
    for (input, message) in cases {
        let Err(error) = parse_variation_set_list(UpdateKind::Add, input) else {
            panic!("{input:?} should fail");
        };
        assert_eq!(error.to_string(), message);
    }
}

#[test]
fn keycap_code_point_items_fill_keycap_positions_only() {
    let set = parse_variation_set_list(UpdateKind::Add, "k(0023)").unwrap();
    assert!(set.contains_keycap('#'));
    assert!(!set.contains('#'));
    let set = parse_variation_set_list(UpdateKind::Add, "u(0023)").unwrap();
    assert!(set.contains('#'));
    assert!(!set.contains_keycap('#'));
}

#[test]
fn all_inside_an_ignore_list_is_an_unknown_label() {
    assert_parse_error(
        parse_ignore_list(UpdateKind::Add, "git,all"),
        "unknown ignore label `all`",
    );
}

#[test]
fn edit_distance_counts_a_swap_as_two() {
    assert_eq!(edit_distance("ab", "ba"), 2);
    assert_eq!(edit_distance("same", "same"), 0);
    assert_eq!(suggest_name("zzzzzz", &["git", "evfmt", "hidden"]), None);
    assert_eq!(suggest_name("x", &[]), None);
}
