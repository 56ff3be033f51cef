//! Character-set expression language for formatter policy.
//!
//! This module owns the expression language:
//!
//! - the [`Expr`] tree and named-set identifiers
//! - membership evaluation against characters
//! - user-facing help text for the language
//!
//! Parsing lives in the `parser` submodule and is re-exported here.

use vstd::prelude::*;

use crate::text::{hex4, push_hex4};
use crate::unicode;

pub(crate) mod parser;

pub use parser::{parse, parse_expr_only, ParseError, ParseResult, ParseWarning};

verus! {

/// Help text for the expression language, printed by `--help-expression`.
pub const EXPRESSION_HELP: &'static str = "\
Expression Language
===================

Both --prefer-bare-for and --treat-bare-as-text-for accept an expression that
describes a set of characters.
\
Here \"variation-sequence character\" means a character listed in Unicode's
emoji-variation-sequences.txt.

Atoms
-----
  all               All variation-sequence characters
  none              No character
  ascii             Variation-sequence characters in U+0000-U+007F
  emoji-defaults    Variation-sequence characters whose Unicode default is emoji
  rights-marks      Characters currently listed in Unicode's
                    emoji-variation-sequences.txt as rights marks:
                    ©︎ (U+00A9), ®︎ (U+00AE), ™︎ (U+2122)
                    This set may change when evfmt upgrades Unicode.
  arrows            Characters currently listed in Unicode's
                    emoji-variation-sequences.txt as arrows:
                    ↔︎ (U+2194), ↕︎ (U+2195), ↖︎ (U+2196), ↗︎ (U+2197),
                    ↘︎ (U+2198), ↙︎ (U+2199), ↩︎ (U+21A9), ↪︎ (U+21AA),
                    ➡︎ (U+27A1), ⤴︎ (U+2934), ⤵︎ (U+2935), ⬅︎ (U+2B05),
                    ⬆︎ (U+2B06), ⬇︎ (U+2B07)
                    This set may change when evfmt upgrades Unicode.
  card-suits        Characters currently listed in Unicode's
                    emoji-variation-sequences.txt as card suits:
                    ♠︎ (U+2660), ♣︎ (U+2663), ♥︎ (U+2665), ♦︎ (U+2666)
                    This set may change when evfmt upgrades Unicode.

Literals
--------
  u(00A9)           Single code point (4-6 hex digits)
  '#'               Single character; selectors inside quotes do not matter
  \"#*\"              Union of characters (sugar for union('#', '*');
                    selectors inside quotes do not matter)

Combinators
-----------
  union(e1, e2, ...)              Match any (1+ arguments)
  subtract(base, ex1, ex2, ...)   Match base but not excluded (2+ arguments)
  except(e)                       Top-level only; sugar for subtract(all, e)

Examples
--------
  --prefer-bare-for='ascii'
  --treat-bare-as-text-for='ascii'
  --prefer-bare-for='subtract(ascii, \"#*\")'
  --treat-bare-as-text-for='union(ascii, rights-marks)'
  --prefer-bare-for='union(ascii, rights-marks)'
";

/// Identifier for a named set in the expression language.
#[derive(Debug, Clone, Copy, PartialEq, Eq, Structural)]
pub enum NamedSetId {
    /// ASCII characters (U+0000-U+007F).
    Ascii,
    /// Variation-sequence characters whose Unicode default side is emoji.
    EmojiDefaults,
    /// U+00A9, U+00AE and U+2122.
    RightsMarks,
    /// Arrow characters with variation sequences.
    Arrows,
    /// U+2660, U+2663, U+2665 and U+2666.
    CardSuits,
}

/// Whether `ch` belongs to the named set `id`.
pub open spec fn named_matches(id: NamedSetId, ch: char) -> bool {
    let v = ch as u32;
    match id {
        NamedSetId::Ascii => v < 0x80,
        NamedSetId::EmojiDefaults => unicode::emoji_default(ch),
        NamedSetId::RightsMarks => v == 0xA9 || v == 0xAE || v == 0x2122,
        NamedSetId::Arrows => v == 0x2194 || v == 0x2195 || v == 0x2196 || v == 0x2197 || v
            == 0x2198 || v == 0x2199 || v == 0x21A9 || v == 0x21AA || v == 0x27A1 || v == 0x2934
            || v == 0x2935 || v == 0x2B05 || v == 0x2B06 || v == 0x2B07,
        NamedSetId::CardSuits => v == 0x2660 || v == 0x2663 || v == 0x2665 || v == 0x2666,
    }
}

/// The name of a named set in the expression language.
pub open spec fn named_text(id: NamedSetId) -> Seq<char> {
    match id {
        NamedSetId::Ascii => "ascii"@,
        NamedSetId::EmojiDefaults => "emoji-defaults"@,
        NamedSetId::RightsMarks => "rights-marks"@,
        NamedSetId::Arrows => "arrows"@,
        NamedSetId::CardSuits => "card-suits"@,
    }
}

impl NamedSetId {
    /// Check whether a character belongs to this named set.
    pub fn matches(&self, ch: char) -> (r: bool)
        ensures
            r == named_matches(*self, ch),
    {
        let v = ch as u32;
        match self {
            NamedSetId::Ascii => v < 0x80,
            NamedSetId::EmojiDefaults => unicode::is_emoji_default(ch),
            NamedSetId::RightsMarks => v == 0xA9 || v == 0xAE || v == 0x2122,
            NamedSetId::Arrows => v == 0x2194 || v == 0x2195 || v == 0x2196 || v == 0x2197 || v
                == 0x2198 || v == 0x2199 || v == 0x21A9 || v == 0x21AA || v == 0x27A1 || v
                == 0x2934 || v == 0x2935 || v == 0x2B05 || v == 0x2B06 || v == 0x2B07,
            NamedSetId::CardSuits => v == 0x2660 || v == 0x2663 || v == 0x2665 || v == 0x2666,
        }
    }

    /// The name of this set in the expression language.
    pub fn to_string(&self) -> (r: String)
        ensures
            r@ == named_text(*self),
    {
        match self {
            NamedSetId::Ascii => String::from_str("ascii"),
            NamedSetId::EmojiDefaults => String::from_str("emoji-defaults"),
            NamedSetId::RightsMarks => String::from_str("rights-marks"),
            NamedSetId::Arrows => String::from_str("arrows"),
            NamedSetId::CardSuits => String::from_str("card-suits"),
        }
    }
}

/// An expression in the set language.
#[derive(Debug, PartialEq, Eq)]
pub enum Expr {
    /// Matches every character.
    All,
    /// Matches no character.
    Nothing,
    /// Matches characters in a named set.
    NamedSet(NamedSetId),
    /// Matches a single character.
    CodePoint(char),
    /// Matches if any sub-expression matches.
    Union(Vec<Expr>),
    /// Matches characters in the base that are in none of the excluded sets.
    Subtract(Box<Expr>, Vec<Expr>),
}

/// Model of an expression.
pub enum ExprModel {
    All,
    Nothing,
    NamedSet(NamedSetId),
    CodePoint(char),
    Union(Seq<ExprModel>),
    Subtract(Box<ExprModel>, Seq<ExprModel>),
}

/// The model of an expression.
pub open spec fn expr_model(e: Expr) -> ExprModel
    decreases e,
{
    match e {
        Expr::All => ExprModel::All,
        Expr::Nothing => ExprModel::Nothing,
        Expr::NamedSet(id) => ExprModel::NamedSet(id),
        Expr::CodePoint(c) => ExprModel::CodePoint(c),
        Expr::Union(v) => ExprModel::Union(exprs_model(v@)),
        Expr::Subtract(base, v) => ExprModel::Subtract(Box::new(expr_model(*base)), exprs_model(v@)),
    }
}

/// The models of a list of expressions.
pub open spec fn exprs_model(es: Seq<Expr>) -> Seq<ExprModel>
    decreases es,
{
    if es.len() == 0 {
        Seq::empty()
    } else {
        seq![expr_model(es[0])] + exprs_model(es.drop_first())
    }
}

/// Whether the expression matches `ch`.
pub open spec fn model_matches(e: ExprModel, ch: char) -> bool
    decreases e,
{
    match e {
        ExprModel::All => true,
        ExprModel::Nothing => false,
        ExprModel::NamedSet(id) => named_matches(id, ch),
        ExprModel::CodePoint(c) => c == ch,
        ExprModel::Union(es) => any_matches(es, ch),
        ExprModel::Subtract(base, es) => model_matches(*base, ch) && !any_matches(es, ch),
    }
}

/// Whether some expression of the list matches `ch`.
pub open spec fn any_matches(es: Seq<ExprModel>, ch: char) -> bool
    decreases es,
{
    if es.len() == 0 {
        false
    } else {
        model_matches(es[0], ch) || any_matches(es.drop_first(), ch)
    }
}

/// The text of an expression, as `to_string` writes it.
pub open spec fn expr_text(e: ExprModel) -> Seq<char>
    decreases e,
{
    match e {
        ExprModel::All => "all"@,
        ExprModel::Nothing => "none"@,
        ExprModel::NamedSet(id) => named_text(id),
        ExprModel::CodePoint(c) => "u("@ + hex4(c as nat) + ")"@,
        ExprModel::Union(es) => "union("@ + list_text(es) + ")"@,
        ExprModel::Subtract(base, es) => "subtract("@ + expr_text(*base) + suffix_text(es) + ")"@,
    }
}

/// The texts of a list of expressions, separated by `", "`.
pub open spec fn list_text(es: Seq<ExprModel>) -> Seq<char>
    decreases es,
{
    if es.len() == 0 {
        Seq::empty()
    } else if es.len() == 1 {
        expr_text(es[0])
    } else {
        list_text(es.drop_last()) + ", "@ + expr_text(es.last())
    }
}

/// The texts of a list of expressions, each preceded by `", "`.
pub open spec fn suffix_text(es: Seq<ExprModel>) -> Seq<char>
    decreases es,
{
    if es.len() == 0 {
        Seq::empty()
    } else {
        suffix_text(es.drop_last()) + ", "@ + expr_text(es.last())
    }
}

impl View for Expr {
    type V = ExprModel;

    open spec fn view(&self) -> ExprModel {
        expr_model(*self)
    }
}

proof fn lemma_exprs_model(es: Seq<Expr>)
    ensures
        exprs_model(es).len() == es.len(),
        forall|k: int| 0 <= k < es.len() ==> #[trigger] exprs_model(es)[k] == expr_model(es[k]),
    decreases es,
{
    if es.len() > 0 {
        lemma_exprs_model(es.drop_first());
        assert forall|k: int| 0 <= k < es.len() implies #[trigger] exprs_model(es)[k] == expr_model(
            es[k],
        ) by {
            if k > 0 {
                assert(es.drop_first()[k - 1] == es[k]);
            }
        }
    }
}

proof fn lemma_any_matches_skip(es: Seq<ExprModel>, k: int, ch: char)
    requires
        0 <= k < es.len(),
    ensures
        any_matches(es.skip(k), ch) == (model_matches(es[k], ch) || any_matches(
            es.skip(k + 1),
            ch,
        )),
{
    assert(es.skip(k).drop_first() =~= es.skip(k + 1));
    assert(es.skip(k)[0] == es[k]);
}

impl Expr {
    /// Whether some expression of `exprs` matches `ch`.
    fn any_match(exprs: &Vec<Expr>, ch: char) -> (r: bool)
        ensures
            r == any_matches(exprs_model(exprs@), ch),
        decreases exprs,
    {
        let ghost ms = exprs_model(exprs@);
        proof {
            lemma_exprs_model(exprs@);
            assert(ms.skip(0) =~= ms);
        }
        let mut k: usize = 0;
        while k < exprs.len()
            invariant
                ms == exprs_model(exprs@),
                ms.len() == exprs@.len(),
                forall|j: int| 0 <= j < exprs@.len() ==> #[trigger] ms[j] == expr_model(exprs@[j]),
                k <= exprs.len(),
                any_matches(ms, ch) == any_matches(ms.skip(k as int), ch),
            decreases exprs.len() - k,
        {
            proof {
                lemma_any_matches_skip(ms, k as int, ch);
                assert(decreases_to!(exprs => exprs@));
                assert(decreases_to!(exprs@ => exprs@[k as int]));
            }
            if exprs[k].matches(ch) {
                return true;
            }
            k = k + 1;
        }
        proof {
            assert(ms.skip(k as int) =~= Seq::<ExprModel>::empty());
        }
        false
    }

    /// Evaluate whether this expression matches the given character.
    pub fn matches(&self, ch: char) -> (r: bool)
        ensures
            r == model_matches(self@, ch),
        decreases self,
    {
        match self {
            Expr::All => true,
            Expr::Nothing => false,
            Expr::NamedSet(id) => id.matches(ch),
            Expr::CodePoint(cp) => ch == *cp,
            Expr::Union(exprs) => Expr::any_match(exprs, ch),
            Expr::Subtract(base, excluded) => base.matches(ch) && !Expr::any_match(excluded, ch),
        }
    }
}

fn append_literal(out: &mut String, lit: &str)
    ensures
        final(out)@ == old(out)@ + lit@,
{
    out.append(lit);
}

impl Expr {
    /// Appends the texts of `exprs`, separated by `", "` when `separate_first`
    /// is false, and each preceded by `", "` otherwise.
    fn push_list(exprs: &Vec<Expr>, out: &mut String, each_preceded: bool)
        ensures
            final(out)@ == old(out)@ + if each_preceded {
                suffix_text(exprs_model(exprs@))
            } else {
                list_text(exprs_model(exprs@))
            },
        decreases exprs,
    {
        let ghost ms = exprs_model(exprs@);
        let ghost start = out@;
        proof {
            lemma_exprs_model(exprs@);
            assert(ms.take(0) =~= Seq::<ExprModel>::empty());
        }
        let mut k: usize = 0;
        while k < exprs.len()
            invariant
                ms == exprs_model(exprs@),
                ms.len() == exprs@.len(),
                forall|j: int| 0 <= j < exprs@.len() ==> #[trigger] ms[j] == expr_model(exprs@[j]),
                k <= exprs.len(),
                out@ == start + if each_preceded {
                    suffix_text(ms.take(k as int))
                } else {
                    list_text(ms.take(k as int))
                },
            decreases exprs.len() - k,
        {
            proof {
                assert(decreases_to!(exprs => exprs@));
                assert(decreases_to!(exprs@ => exprs@[k as int]));
                let longer = ms.take(k as int + 1);
                assert(longer.drop_last() =~= ms.take(k as int));
                assert(longer.last() == ms[k as int]);
                if k == 0 {
                    assert(longer.len() == 1);
                    assert(longer[0] == ms[0]);
                }
            }
            if each_preceded || k > 0 {
                append_literal(out, ", ");
            }
            exprs[k].push_text(out);
            proof {
                assert(out@ =~= start + if each_preceded {
                    suffix_text(ms.take(k as int + 1))
                } else {
                    list_text(ms.take(k as int + 1))
                });
            }
            k = k + 1;
        }
        proof {
            assert(ms.take(k as int) =~= ms);
        }
    }

    /// Appends the text of this expression.
    fn push_text(&self, out: &mut String)
        ensures
            final(out)@ == old(out)@ + expr_text(self@),
        decreases self,
    {
        let ghost start = out@;
        match self {
            Expr::All => append_literal(out, "all"),
            Expr::Nothing => append_literal(out, "none"),
            Expr::NamedSet(id) => {
                let name = id.to_string();
                out.append(name.as_str());
            },
            Expr::CodePoint(c) => {
                append_literal(out, "u(");
                push_hex4(out, *c as u32);
                append_literal(out, ")");
                proof {
                    assert(out@ =~= start + expr_text(self@));
                }
            },
            Expr::Union(exprs) => {
                append_literal(out, "union(");
                Expr::push_list(exprs, out, false);
                append_literal(out, ")");
                proof {
                    assert(out@ =~= start + expr_text(self@));
                }
            },
            Expr::Subtract(base, excluded) => {
                append_literal(out, "subtract(");
                base.push_text(out);
                Expr::push_list(excluded, out, true);
                append_literal(out, ")");
                proof {
                    assert(out@ =~= start + expr_text(self@));
                }
            },
        }
    }

    /// The text of this expression in the expression language.
    pub fn to_string(&self) -> (r: String)
        ensures
            r@ == expr_text(self@),
    {
        let mut out = String::new();
        self.push_text(&mut out);
        proof {
            assert(out@ =~= expr_text(self@));
        }
        out
    }
}

/// Two characters with the same code point are the same character.
proof fn lemma_same_char(c: char, d: char)
    requires
        c as u32 == d as u32,
    ensures
        c == d,
{
    vstd::utf8::char_u32_cast(c, c as u32);
    vstd::utf8::char_u32_cast(d, d as u32);
}

/// The `arrows` atom matches exactly the fourteen arrows the help text
/// lists: U+2194..U+2199, U+21A9, U+21AA, U+27A1, U+2934, U+2935, U+2B05,
/// U+2B06 and U+2B07.
pub proof fn lemma_arrows_atom(ch: char)
    ensures
        model_matches(ExprModel::NamedSet(NamedSetId::Arrows), ch) == set![
            '\u{2194}', '\u{2195}', '\u{2196}', '\u{2197}', '\u{2198}', '\u{2199}', '\u{21A9}',
            '\u{21AA}', '\u{27A1}', '\u{2934}', '\u{2935}', '\u{2B05}', '\u{2B06}', '\u{2B07}',
        ].contains(ch),
{
    if model_matches(ExprModel::NamedSet(NamedSetId::Arrows), ch) {
        if ch as u32 == 0x2194 {
            lemma_same_char(ch, '\u{2194}');
        } else if ch as u32 == 0x2195 {
            lemma_same_char(ch, '\u{2195}');
        } else if ch as u32 == 0x2196 {
            lemma_same_char(ch, '\u{2196}');
        } else if ch as u32 == 0x2197 {
            lemma_same_char(ch, '\u{2197}');
        } else if ch as u32 == 0x2198 {
            lemma_same_char(ch, '\u{2198}');
        } else if ch as u32 == 0x2199 {
            lemma_same_char(ch, '\u{2199}');
        } else if ch as u32 == 0x21A9 {
            lemma_same_char(ch, '\u{21A9}');
        } else if ch as u32 == 0x21AA {
            lemma_same_char(ch, '\u{21AA}');
        } else if ch as u32 == 0x27A1 {
            lemma_same_char(ch, '\u{27A1}');
        } else if ch as u32 == 0x2934 {
            lemma_same_char(ch, '\u{2934}');
        } else if ch as u32 == 0x2935 {
            lemma_same_char(ch, '\u{2935}');
        } else if ch as u32 == 0x2B05 {
            lemma_same_char(ch, '\u{2B05}');
        } else if ch as u32 == 0x2B06 {
            lemma_same_char(ch, '\u{2B06}');
        } else {
            lemma_same_char(ch, '\u{2B07}');
        }
    }
}

/// The `rights-marks` atom matches exactly U+00A9, U+00AE and U+2122, as the
/// help text lists them.
pub proof fn lemma_rights_marks_atom(ch: char)
    ensures
        model_matches(ExprModel::NamedSet(NamedSetId::RightsMarks), ch) == set![
            '\u{00A9}', '\u{00AE}', '\u{2122}',
        ].contains(ch),
{
    if model_matches(ExprModel::NamedSet(NamedSetId::RightsMarks), ch) {
        if ch as u32 == 0xA9 {
            lemma_same_char(ch, '\u{00A9}');
        } else if ch as u32 == 0xAE {
            lemma_same_char(ch, '\u{00AE}');
        } else {
            lemma_same_char(ch, '\u{2122}');
        }
    }
}

/// The `card-suits` atom matches exactly U+2660, U+2663, U+2665 and U+2666,
/// as the help text lists them.
pub proof fn lemma_card_suits_atom(ch: char)
    ensures
        model_matches(ExprModel::NamedSet(NamedSetId::CardSuits), ch) == set![
            '\u{2660}', '\u{2663}', '\u{2665}', '\u{2666}',
        ].contains(ch),
{
    if model_matches(ExprModel::NamedSet(NamedSetId::CardSuits), ch) {
        if ch as u32 == 0x2660 {
            lemma_same_char(ch, '\u{2660}');
        } else if ch as u32 == 0x2663 {
            lemma_same_char(ch, '\u{2663}');
        } else if ch as u32 == 0x2665 {
            lemma_same_char(ch, '\u{2665}');
        } else {
            lemma_same_char(ch, '\u{2666}');
        }
    }
}

} // verus!
