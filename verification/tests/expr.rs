use evfmt::expr::{parse, Expr, NamedSetId, EXPRESSION_HELP};

fn parse_ok(input: &str) -> Expr {
    parse(input).unwrap().expr
}

#[test]
fn test_matches_all() {
    let expr = parse_ok("all");
    assert!(expr.matches('#'));
    assert!(expr.matches('\u{00A9}'));
}

#[test]
fn test_matches_none() {
    let expr = parse_ok("none");
    assert!(!expr.matches('#'));
    assert!(!expr.matches('\u{00A9}'));
}

#[test]
fn test_matches_ascii() {
    let expr = parse_ok("ascii");
    assert!(expr.matches('#'));
    assert!(expr.matches('A'));
    assert!(!expr.matches('\u{00A9}'));
}

#[test]
fn test_matches_emoji_defaults() {
    let expr = parse_ok("emoji-defaults");
    assert!(expr.matches('\u{2728}'));
    assert!(!expr.matches('\u{00A9}'));
    assert!(!expr.matches('#'));
    assert!(!expr.matches('A'));
}

#[test]
fn test_matches_rights_marks() {
    let expr = parse_ok("rights-marks");
    assert!(expr.matches('\u{00A9}'));
    assert!(expr.matches('\u{00AE}'));
    assert!(expr.matches('\u{2122}'));
    assert!(!expr.matches('A'));
    assert!(!expr.matches('\u{2660}'));
}

#[test]
fn test_matches_arrows() {
    let expr = parse_ok("arrows");
    assert!(expr.matches('\u{2194}'));
    assert!(expr.matches('\u{27A1}'));
    assert!(expr.matches('\u{2B05}'));
    assert!(!expr.matches('A'));
    assert!(!expr.matches('\u{2660}'));
}

#[test]
fn test_matches_card_suits() {
    let expr = parse_ok("card-suits");
    assert!(expr.matches('\u{2660}'));
    assert!(expr.matches('\u{2663}'));
    assert!(expr.matches('\u{2665}'));
    assert!(expr.matches('\u{2666}'));
    assert!(!expr.matches('A'));
    assert!(!expr.matches('\u{00A9}'));
}

#[test]
fn test_matches_subtract_binary_with_space_before_paren() {
    let expr = parse_ok("subtract (all, ascii)");
    assert!(!expr.matches('A'));
    assert!(expr.matches('\u{00A9}'));
}

#[test]
fn test_matches_subtract_binary() {
    let expr = parse_ok("subtract(all, ascii)");
    assert!(!expr.matches('A'));
    assert!(expr.matches('\u{00A9}'));
}

#[test]
fn test_matches_subtract_variadic() {
    let expr = parse_ok("subtract(all, ascii, emoji-defaults)");
    assert!(!expr.matches('A'));
    assert!(!expr.matches('\u{2728}'));
    assert!(expr.matches('\u{00A9}'));
}

#[test]
fn test_matches_union() {
    let expr = parse_ok("union(u(0023), u(002A))");
    assert!(expr.matches('#'));
    assert!(expr.matches('*'));
    assert!(!expr.matches('A'));
}

#[test]
fn test_matches_union_with_space_before_paren() {
    let expr = parse_ok("union (u(0023), u(002A))");
    assert!(expr.matches('#'));
    assert!(expr.matches('*'));
    assert!(!expr.matches('A'));
}

#[test]
fn test_matches_u_with_space_before_paren() {
    let expr = parse_ok("u (0023)");
    assert!(expr.matches('#'));
    assert!(!expr.matches('A'));
}

#[test]
fn test_matches_single_quoted() {
    let expr = parse_ok("'#'");
    assert!(expr.matches('#'));
    assert!(!expr.matches('A'));
}

#[test]
fn test_matches_single_quoted_with_variant_selector() {
    let expr = parse_ok("'#\u{FE0F}'");
    assert!(expr.matches('#'));
    assert!(!expr.matches('\u{FE0F}'));
    assert!(!expr.matches('A'));
}

#[test]
fn test_matches_double_quoted() {
    let expr = parse_ok("\"#*\"");
    assert!(expr.matches('#'));
    assert!(expr.matches('*'));
    assert!(!expr.matches('A'));
}

#[test]
fn test_matches_double_quoted_with_variant_selectors() {
    let expr = parse_ok("\"#\u{FE0F}*\u{FE0E}\"");
    assert!(expr.matches('#'));
    assert!(expr.matches('*'));
    assert!(!expr.matches('\u{FE0E}'));
    assert!(!expr.matches('\u{FE0F}'));
    assert!(!expr.matches('A'));
}

#[test]
fn test_matches_except() {
    let expr = parse_ok("except(ascii)");
    assert!(!expr.matches('A'));
    assert!(expr.matches('\u{00A9}'));
}

#[test]
fn test_matches_except_with_space_before_paren() {
    let expr = parse_ok("except (ascii)");
    assert!(!expr.matches('A'));
    assert!(expr.matches('\u{00A9}'));
}

#[test]
fn test_display_round_trip() {
    let exprs = [
        "all",
        "none",
        "ascii",
        "emoji-defaults",
        "rights-marks",
        "arrows",
        "card-suits",
        "u(0023)",
        "union(u(0023), u(002A))",
        "subtract(all, ascii)",
        "subtract(all, ascii, emoji-defaults)",
        "subtract(all, union(ascii, emoji-defaults))",
    ];
    for s in &exprs {
        let parsed = parse_ok(s);
        let displayed = parsed.to_string();
        let reparsed = parse_ok(&displayed);
        assert_eq!(parsed, reparsed, "round-trip failed for {s:?}");
    }
}

#[test]
fn test_help_text_mentions_all_named_sets() {
    let named_sets = [
        NamedSetId::Ascii,
        NamedSetId::EmojiDefaults,
        NamedSetId::RightsMarks,
        NamedSetId::Arrows,
        NamedSetId::CardSuits,
    ];
    for id in &named_sets {
        let name = id.to_string();
        assert!(
            EXPRESSION_HELP.contains(&name),
            "EXPRESSION_HELP missing named set {name:?}"
        );
    }
}

#[test]
fn test_help_text_mentions_combinators() {
    for keyword in ["union(", "subtract(", "except("] {
        assert!(
            EXPRESSION_HELP.contains(keyword),
            "EXPRESSION_HELP missing combinator {keyword:?}"
        );
    }
}

#[test]
fn test_help_text_mentions_literal_forms() {
    for form in ["u(", "'", "\""] {
        assert!(
            EXPRESSION_HELP.contains(form),
            "EXPRESSION_HELP missing literal form {form:?}"
        );
    }
}

#[test]
fn test_help_text_mentions_keywords() {
    for keyword in ["all", "none"] {
        assert!(
            EXPRESSION_HELP.contains(keyword),
            "EXPRESSION_HELP missing keyword {keyword:?}"
        );
    }
}
