use evfmt::expr::{parse, Expr, NamedSetId, ParseError, ParseWarning};

fn parse_ok(input: &str) -> Expr {
    parse(input).unwrap().expr
}

#[test]
fn test_parse_all() {
    assert_eq!(parse_ok("all"), Expr::All);
}

#[test]
fn test_parse_none() {
    assert_eq!(parse_ok("none"), Expr::Nothing);
}

#[test]
fn test_parse_ascii() {
    assert_eq!(parse_ok("ascii"), Expr::NamedSet(NamedSetId::Ascii));
}

#[test]
fn test_parse_emoji_defaults() {
    assert_eq!(
        parse_ok("emoji-defaults"),
        Expr::NamedSet(NamedSetId::EmojiDefaults)
    );
}

#[test]
fn test_parse_rights_marks() {
    assert_eq!(
        parse_ok("rights-marks"),
        Expr::NamedSet(NamedSetId::RightsMarks)
    );
}

#[test]
fn test_parse_arrows() {
    assert_eq!(parse_ok("arrows"), Expr::NamedSet(NamedSetId::Arrows));
}

#[test]
fn test_parse_card_suits() {
    assert_eq!(
        parse_ok("card-suits"),
        Expr::NamedSet(NamedSetId::CardSuits)
    );
}

#[test]
fn test_parse_u_single() {
    assert_eq!(parse_ok("u(0023)"), Expr::CodePoint('\u{0023}'));
    assert_eq!(parse_ok("u(1F600)"), Expr::CodePoint('\u{1F600}'));
}

#[test]
fn test_parse_u_uppercase_no_warning() {
    let result = parse("u(00FF)").unwrap();
    assert!(result.warnings.is_empty());
}

#[test]
fn test_parse_u_lowercase_no_warning() {
    let result = parse("u(00ff)").unwrap();
    assert_eq!(result.expr, Expr::CodePoint('\u{00FF}'));
    assert!(result.warnings.is_empty());
}

#[test]
fn test_parse_u_mixed_case_warns() {
    let result = parse("u(00aD)").unwrap();
    assert_eq!(result.expr, Expr::CodePoint('\u{00AD}'));
    assert_eq!(result.warnings.len(), 1);
    assert!(result.warnings[0].message.contains("mixed-case"));
}

#[test]
fn test_parse_u_rejects_short() {
    assert!(parse("u(23)").is_err());
    assert!(parse("u(F)").is_err());
}

#[test]
fn test_parse_u_rejects_multiple() {
    assert!(parse("u(0023,002A)").is_err());
}

#[test]
fn test_parse_single_quoted() {
    assert_eq!(parse_ok("'#'"), Expr::CodePoint('#'));
    assert_eq!(parse_ok("'\u{00A9}'"), Expr::CodePoint('\u{00A9}'));
    assert_eq!(parse_ok("'😀'"), Expr::CodePoint('😀'));
}

#[test]
fn test_parse_single_quoted_ignores_variant_selectors() {
    assert_eq!(parse_ok("'\u{00A9}\u{FE0F}'"), Expr::CodePoint('\u{00A9}'));
    assert_eq!(parse_ok("'\u{00A9}\u{FE0E}'"), Expr::CodePoint('\u{00A9}'));
    assert_eq!(
        parse_ok("'\u{FE0F}\u{00A9}\u{FE0E}\u{FE0F}'"),
        Expr::CodePoint('\u{00A9}')
    );
}

#[test]
fn test_parse_single_quoted_rejects_empty() {
    assert!(parse("''").is_err());
}

#[test]
fn test_parse_single_quoted_rejects_multi() {
    assert!(parse("'ab'").is_err());
}

#[test]
fn test_parse_single_quoted_rejects_selector_only() {
    assert!(parse("'\u{FE0F}'").is_err());
    assert!(parse("'\u{FE0F}\u{FE0E}'").is_err());
}

#[test]
fn test_parse_single_quoted_counts_non_selectors_after_filtering() {
    assert!(parse("'a\u{FE0F}b'").is_err());
    assert!(parse("'\u{FE0E}a\u{FE0F}b\u{FE0E}'").is_err());
}

#[test]
fn test_parse_double_quoted() {
    assert_eq!(
        parse_ok("\"abc\""),
        Expr::Union(vec![
            Expr::CodePoint('a'),
            Expr::CodePoint('b'),
            Expr::CodePoint('c'),
        ])
    );
}

#[test]
fn test_parse_double_quoted_ignores_variant_selectors() {
    assert_eq!(
        parse_ok("\"\u{00A9}\u{FE0F}#\u{FE0E}\""),
        Expr::Union(vec![Expr::CodePoint('\u{00A9}'), Expr::CodePoint('#')])
    );
    assert_eq!(
        parse_ok("\"\u{FE0F}\u{00A9}\u{FE0E}\u{FE0F}#\u{FE0E}\""),
        Expr::Union(vec![Expr::CodePoint('\u{00A9}'), Expr::CodePoint('#')])
    );
}

#[test]
fn test_parse_double_quoted_single_char() {
    assert_eq!(parse_ok("\"a\""), Expr::CodePoint('a'));
}

#[test]
fn test_parse_double_quoted_single_char_after_filtering() {
    assert_eq!(parse_ok("\"a\u{FE0F}\""), Expr::CodePoint('a'));
    assert_eq!(
        parse_ok("\"\u{FE0E}a\u{FE0F}\u{FE0E}\""),
        Expr::CodePoint('a')
    );
}

#[test]
fn test_parse_double_quoted_rejects_empty() {
    assert!(parse("\"\"").is_err());
}

#[test]
fn test_parse_double_quoted_rejects_selector_only() {
    assert!(parse("\"\u{FE0F}\u{FE0E}\"").is_err());
}

#[test]
fn test_parse_quoted_in_subtract() {
    assert_eq!(
        parse_ok("subtract(ascii, \"#*\")"),
        Expr::Subtract(
            Box::new(Expr::NamedSet(NamedSetId::Ascii)),
            vec![Expr::Union(vec![
                Expr::CodePoint('#'),
                Expr::CodePoint('*'),
            ])],
        )
    );
}

#[test]
fn test_parse_quoted_with_selectors_in_subtract() {
    assert_eq!(
        parse_ok("subtract(ascii, \"#\u{FE0F}*\u{FE0E}\")"),
        Expr::Subtract(
            Box::new(Expr::NamedSet(NamedSetId::Ascii)),
            vec![Expr::Union(vec![
                Expr::CodePoint('#'),
                Expr::CodePoint('*'),
            ])],
        )
    );
}

#[test]
fn test_parse_union() {
    assert_eq!(
        parse_ok("union(u(0023), u(002A))"),
        Expr::Union(vec![
            Expr::CodePoint('\u{0023}'),
            Expr::CodePoint('\u{002A}'),
        ])
    );
}

#[test]
fn test_parse_union_single() {
    assert_eq!(
        parse_ok("union(ascii)"),
        Expr::Union(vec![Expr::NamedSet(NamedSetId::Ascii)])
    );
}

#[test]
fn test_parse_subtract_binary() {
    assert_eq!(
        parse_ok("subtract(all, ascii)"),
        Expr::Subtract(Box::new(Expr::All), vec![Expr::NamedSet(NamedSetId::Ascii)])
    );
}

#[test]
fn test_parse_subtract_variadic() {
    assert_eq!(
        parse_ok("subtract(all, ascii, emoji-defaults)"),
        Expr::Subtract(
            Box::new(Expr::All),
            vec![
                Expr::NamedSet(NamedSetId::Ascii),
                Expr::NamedSet(NamedSetId::EmojiDefaults),
            ],
        )
    );
}

#[test]
fn test_parse_subtract_rejects_unary() {
    assert!(parse("subtract(all)").is_err());
}

#[test]
fn test_parse_except() {
    assert_eq!(
        parse_ok("except(ascii)"),
        Expr::Subtract(Box::new(Expr::All), vec![Expr::NamedSet(NamedSetId::Ascii)])
    );
}

#[test]
fn test_parse_except_nested_rejected() {
    assert!(parse("union(except(ascii))").is_err());
}

#[test]
fn test_parse_nested() {
    assert_eq!(
        parse_ok("subtract(all, union(ascii, emoji-defaults))"),
        Expr::Subtract(
            Box::new(Expr::All),
            vec![Expr::Union(vec![
                Expr::NamedSet(NamedSetId::Ascii),
                Expr::NamedSet(NamedSetId::EmojiDefaults),
            ])],
        )
    );
}

#[test]
fn test_warnings_propagate_through_nesting() {
    let result = parse("subtract(all, u(00fF))").unwrap();
    assert_eq!(
        result.expr,
        Expr::Subtract(Box::new(Expr::All), vec![Expr::CodePoint('\u{00FF}')])
    );
    assert_eq!(result.warnings.len(), 1);
}

#[test]
fn test_empty_is_error() {
    assert!(parse("").is_err());
}

#[test]
fn test_parse_warning_display_includes_prefix() {
    let warning = ParseWarning {
        message: "mixed-case hex".to_owned(),
    };

    assert_eq!(warning.to_string(), "expression warning: mixed-case hex");
}

#[test]
fn test_parse_error_display_includes_prefix() {
    let error = ParseError {
        message: "unexpected input".to_owned(),
    };

    assert_eq!(
        error.to_string(),
        "expression parse error: unexpected input"
    );
}

#[test]
fn test_keyword_prefix_without_boundary_reports_unexpected_input() {
    let error = parse("ascii_suffix").unwrap_err();

    assert_eq!(
        error.to_string(),
        "expression parse error: unexpected input: \"ascii_suffix\""
    );
}

#[test]
fn test_trailing_text_is_error() {
    assert!(parse("ascii foo").is_err());
}

#[test]
fn test_old_syntax_rejected() {
    assert!(parse("true").is_err());
    assert!(parse("false").is_err());
    assert!(parse("not(ascii)").is_err());
    assert!(parse("and(ascii, all)").is_err());
    assert!(parse("or(ascii, all)").is_err());
    assert!(parse("urange(0023,0039)").is_err());
}
