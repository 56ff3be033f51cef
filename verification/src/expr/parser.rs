//! Parser for the expression language.
//!
//! The grammar, read over the characters of the trimmed input:
//!
//! - keywords `all`, `none` and the named sets, each ending at a word
//!   boundary
//! - calls `subtract(e, e, ...)` (2+ arguments), `union(e, ...)` (1+
//!   arguments) and `u(HEX)` (4 to 6 hex digits); whitespace may stand
//!   before the parenthesis and around arguments
//! - quoted literals `'c'` (one non-selector character) and `"cs"` (a union
//!   of its non-selector characters, or one code point)
//! - `except(e)` at the top level only, for `subtract(all, e)`
//!
//! [`parse_model`] states the result, warnings and error messages.

use vstd::prelude::*;
use vstd::utf8::is_scalar;

use crate::expr::{Expr, ExprModel, NamedSetId};
use crate::presentation::is_selector_char;
use crate::text::{chars_of, hex4, push_char, push_hex4};

verus! {

// --- Character classes decided by the standard library ---

/// Whether `c` has the Unicode `White_Space` property: U+0009 to U+000D,
/// U+0020, U+0085, U+00A0, U+1680, U+2000 to U+200A, U+2028, U+2029,
/// U+202F, U+205F and U+3000.
pub open spec fn white_space(c: char) -> bool {
    let v = c as u32;
    (0x09 <= v && v <= 0x0D) || v == 0x20 || v == 0x85 || v == 0xA0 || v == 0x1680 || (0x2000
        <= v && v <= 0x200A) || v == 0x2028 || v == 0x2029 || v == 0x202F || v == 0x205F || v
        == 0x3000
}

/// Whether `c` is alphabetic or numeric in Unicode's sense, as
/// `char::is_alphanumeric` decides it.
pub uninterp spec fn alphanumeric(c: char) -> bool;

/// The `Debug` form of a string (quoted, with escapes), as `format!("{:?}")`
/// writes it.
pub uninterp spec fn debug_quoted(s: Seq<char>) -> Seq<char>;

/// Calls `char::is_whitespace`, which the standard library documents as
/// deciding the Unicode `White_Space` property; the contract lists that
/// property's code points.
#[verifier::external_body]
pub(crate) fn is_whitespace(c: char) -> (r: bool)
    ensures
        r == white_space(c),
{
    c.is_whitespace()
}

/// Calls `char::is_alphanumeric`; the contract names its result.
#[verifier::external_body]
fn is_alphanumeric(c: char) -> (r: bool)
    ensures
        r == alphanumeric(c),
{
    c.is_alphanumeric()
}

/// Formats `s` with `{:?}`; the contract names the result.
#[verifier::external_body]
fn debug_str(s: &str) -> (r: String)
    ensures
        r@ == debug_quoted(s@),
{
    format!("{s:?}")
}

/// Calls `char::from_u32`, which the standard library documents as giving
/// the `char` for `v` exactly when `v` is a Unicode scalar value (not a
/// surrogate, at most `U+10FFFF`).
#[verifier::external_body]
pub(crate) fn char_from_u32(v: u32) -> (r: Option<char>)
    ensures
        r == if is_scalar(v) {
            Some(v as char)
        } else {
            None
        },
{
    char::from_u32(v)
}

// --- Text helpers ---

/// Whether `c` is an ASCII hexadecimal digit.
pub open spec fn hex_char(c: char) -> bool {
    ('0' <= c && c <= '9') || ('a' <= c && c <= 'f') || ('A' <= c && c <= 'F')
}

/// The value of an ASCII hexadecimal digit.
pub open spec fn hex_value(c: char) -> nat {
    if '0' <= c && c <= '9' {
        (c as nat - '0' as nat) as nat
    } else if 'a' <= c && c <= 'f' {
        (c as nat - 'a' as nat + 10) as nat
    } else {
        (c as nat - 'A' as nat + 10) as nat
    }
}

/// The value of a run of hexadecimal digits.
pub open spec fn hex_number(ds: Seq<char>) -> nat
    decreases ds.len(),
{
    if ds.len() == 0 {
        0
    } else {
        hex_number(ds.drop_last()) * 16 + hex_value(ds.last())
    }
}

/// A character with ASCII lowercase letters made uppercase.
pub open spec fn ascii_upper(c: char) -> char {
    if 'a' <= c && c <= 'z' {
        ((c as u32) - 32) as char
    } else {
        c
    }
}

/// The decimal digits of `n`.
pub open spec fn decimal(n: nat) -> Seq<char>
    decreases n,
{
    if n < 10 {
        seq![digit_char(n)]
    } else {
        decimal(n / 10).push(digit_char(n % 10))
    }
}

pub open spec fn digit_char(d: nat) -> char {
    if d == 0 {
        '0'
    } else if d == 1 {
        '1'
    } else if d == 2 {
        '2'
    } else if d == 3 {
        '3'
    } else if d == 4 {
        '4'
    } else if d == 5 {
        '5'
    } else if d == 6 {
        '6'
    } else if d == 7 {
        '7'
    } else if d == 8 {
        '8'
    } else {
        '9'
    }
}

/// The first position at or after `i` whose character is not white space.
pub open spec fn skip_ws(t: Seq<char>, i: int) -> int
    decreases t.len() - i,
{
    if 0 <= i < t.len() && white_space(t[i]) {
        skip_ws(t, i + 1)
    } else {
        i
    }
}

/// The position after the last character of `t` that is not white space,
/// looking no further left than `lo`.
pub open spec fn trim_end(t: Seq<char>, lo: int, hi: int) -> int
    decreases hi - lo,
{
    if lo < hi && white_space(t[hi - 1]) {
        trim_end(t, lo, hi - 1)
    } else {
        hi
    }
}

/// `t` without leading and trailing white space.
pub open spec fn trimmed(t: Seq<char>) -> Seq<char> {
    let lo = skip_ws(t, 0);
    t.subrange(lo, trim_end(t, lo, t.len() as int))
}

/// Whether `t` holds `word` at position `i`.
pub open spec fn has_at(t: Seq<char>, i: int, word: Seq<char>) -> bool {
    0 <= i && i + word.len() <= t.len() && t.subrange(i, i + word.len()) == word
}

/// Whether position `k` ends a word: the end of the text, or a character
/// that is neither alphanumeric nor `_`.
pub open spec fn word_boundary(t: Seq<char>, k: int) -> bool {
    k >= t.len() || !(alphanumeric(t[k]) || t[k] == '_')
}

/// Whether `t` holds the keyword `word` at `i`.
pub open spec fn keyword_at(t: Seq<char>, i: int, word: Seq<char>) -> bool {
    has_at(t, i, word) && word_boundary(t, i + word.len())
}

/// The position after `name(` when `t` holds `name`, white space and `(` at
/// `i`.
pub open spec fn call_at(t: Seq<char>, i: int, name: Seq<char>) -> Option<int> {
    if has_at(t, i, name) {
        let k = skip_ws(t, i + name.len());
        if 0 <= k < t.len() && t[k] == '(' {
            Some(k + 1)
        } else {
            None
        }
    } else {
        None
    }
}

/// The first position at or after `i` that holds `c`, if any.
pub open spec fn find_char(t: Seq<char>, i: int, c: char) -> Option<int>
    decreases t.len() - i,
{
    if 0 <= i < t.len() {
        if t[i] == c {
            Some(i)
        } else {
            find_char(t, i + 1, c)
        }
    } else {
        None
    }
}

/// The end of the run of hexadecimal digits starting at `i`.
pub open spec fn hex_end(t: Seq<char>, i: int) -> int
    decreases t.len() - i,
{
    if 0 <= i < t.len() && hex_char(t[i]) {
        hex_end(t, i + 1)
    } else {
        i
    }
}

/// `cs` without presentation selectors.
pub open spec fn without_selectors(cs: Seq<char>) -> Seq<char>
    decreases cs.len(),
{
    if cs.len() == 0 {
        Seq::empty()
    } else if is_selector_char(cs.last()) {
        without_selectors(cs.drop_last())
    } else {
        without_selectors(cs.drop_last()).push(cs.last())
    }
}

/// The code point expression for `c`.
pub open spec fn code_point_model(c: char) -> ExprModel {
    ExprModel::CodePoint(c)
}

/// One code point expression per character.
pub open spec fn code_points(cs: Seq<char>) -> Seq<ExprModel>
    decreases cs.len(),
{
    if cs.len() == 0 {
        Seq::empty()
    } else {
        code_points(cs.drop_last()).push(code_point_model(cs.last()))
    }
}

/// The result of parsing a part of the text: the expression, where it ends,
/// and the warnings it raised; or the error message.
pub type PartResult = Result<(ExprModel, int, Seq<Seq<char>>), Seq<char>>;

/// The result of parsing an argument list tail: the arguments, where the
/// list ends, and the warnings.
pub type ArgsResult = Result<(Seq<ExprModel>, int, Seq<Seq<char>>), Seq<char>>;

/// The message for trailing text.
pub open spec fn trailing_message(rest: Seq<char>) -> Seq<char> {
    "unexpected trailing text: "@ + debug_quoted(rest)
}

/// `u(HEX)`'s digits at `k` (after white space), with the code point.
pub open spec fn hex_codepoint(t: Seq<char>, k: int) -> Result<(char, int, Seq<Seq<char>>), Seq<char>> {
    let a = skip_ws(t, k);
    let e = hex_end(t, a);
    let digits = t.subrange(a, e);
    let n = digits.len();
    if !(4 <= n <= 6) {
        Err(
            "u(...) requires exactly 4, 5, or 6 hex digits, got "@ + decimal(n) + ": "@
                + debug_quoted(digits),
        )
    } else {
        let lower = exists|j: int| 0 <= j < n && 'a' <= #[trigger] digits[j] <= 'z';
        let upper = exists|j: int| 0 <= j < n && 'A' <= #[trigger] digits[j] <= 'Z';
        let warnings = if lower && upper {
            seq![
                "u("@ + digits + ") uses mixed-case hex; canonical form is u("@ + digits.map_values(
                    |c: char| ascii_upper(c),
                ) + ")"@,
            ]
        } else {
            Seq::empty()
        };
        let v = hex_number(digits);
        if v <= 0x10FFFF && is_scalar(v as u32) {
            Ok(((v as u32) as char, e, warnings))
        } else {
            Err("U+"@ + hex4(v) + " is not a valid Unicode scalar value"@)
        }
    }
}

/// A quoted literal at `j`, whose opening quote is `quote`.
pub open spec fn quoted_literal(t: Seq<char>, j: int, quote: char) -> PartResult {
    let single = quote == '\'';
    match find_char(t, j + 1, quote) {
        None => Err(
            if single {
                "unterminated single-quoted literal"@
            } else {
                "unterminated double-quoted literal"@
            },
        ),
        Some(close) => if close == j + 1 {
            Err(
                if single {
                    "empty single-quoted literal"@
                } else {
                    "empty double-quoted literal"@
                },
            )
        } else {
            let cs = without_selectors(t.subrange(j + 1, close));
            if single {
                if cs.len() == 1 {
                    Ok((ExprModel::CodePoint(cs[0]), close + 1, Seq::empty()))
                } else {
                    Err(
                        "single-quoted literal must contain exactly one non-selector character"@,
                    )
                }
            } else if cs.len() == 0 {
                Err("double-quoted literal must contain at least one non-selector character"@)
            } else if cs.len() == 1 {
                Ok((ExprModel::CodePoint(cs[0]), close + 1, Seq::empty()))
            } else {
                Ok((ExprModel::Union(code_points(cs)), close + 1, Seq::empty()))
            }
        },
    }
}

/// The keyword expression at `j`, if a keyword stands there.
pub open spec fn keyword_expr(t: Seq<char>, j: int) -> Option<(ExprModel, int)> {
    if keyword_at(t, j, "all"@) {
        Some((ExprModel::All, j + 3))
    } else if keyword_at(t, j, "none"@) {
        Some((ExprModel::Nothing, j + 4))
    } else if keyword_at(t, j, "emoji-defaults"@) {
        Some((ExprModel::NamedSet(NamedSetId::EmojiDefaults), j + 14))
    } else if keyword_at(t, j, "ascii"@) {
        Some((ExprModel::NamedSet(NamedSetId::Ascii), j + 5))
    } else if keyword_at(t, j, "rights-marks"@) {
        Some((ExprModel::NamedSet(NamedSetId::RightsMarks), j + 12))
    } else if keyword_at(t, j, "arrows"@) {
        Some((ExprModel::NamedSet(NamedSetId::Arrows), j + 6))
    } else if keyword_at(t, j, "card-suits"@) {
        Some((ExprModel::NamedSet(NamedSetId::CardSuits), j + 10))
    } else {
        None
    }
}

/// One expression starting at `i` (after white space).
pub open spec fn parse_at(t: Seq<char>, i: int) -> PartResult
    decreases t.len() - i, 0int,
{
    let j = skip_ws(t, i);
    if !(0 <= i <= j <= t.len()) {
        Err(Seq::empty())
    } else {
        match keyword_expr(t, j) {
            Some((e, end)) => Ok((e, end, Seq::empty())),
            None => if call_at(t, j, "except"@) is Some {
                Err(
                    "except(...) is only allowed at the top level; use subtract(all, ...) instead"@,
                )
            } else if call_at(t, j, "subtract"@) is Some {
                let k = call_at(t, j, "subtract"@)->0;
                if k > i {
                    subtract_at(t, k)
                } else {
                    Err(Seq::empty())
                }
            } else if call_at(t, j, "union"@) is Some {
                let k = call_at(t, j, "union"@)->0;
                if k > i {
                    union_at(t, k)
                } else {
                    Err(Seq::empty())
                }
            } else if call_at(t, j, "u"@) is Some {
                let k = call_at(t, j, "u"@)->0;
                match hex_codepoint(t, k) {
                    Err(m) => Err(m),
                    Ok((c, m, w)) => {
                        let n = skip_ws(t, m);
                        if 0 <= n < t.len() && t[n] == ')' {
                            Ok((ExprModel::CodePoint(c), n + 1, w))
                        } else {
                            Err("expected ')' in u(...)"@)
                        }
                    },
                }
            } else if j < t.len() && t[j] == '\'' {
                quoted_literal(t, j, '\'')
            } else if j < t.len() && t[j] == '"' {
                quoted_literal(t, j, '"')
            } else {
                Err("unexpected input: "@ + debug_quoted(t.subrange(j, t.len() as int)))
            }
        }
    }
}

/// The arguments after the first of a call: each `, e` from `p` on.
pub open spec fn more_args_at(t: Seq<char>, p: int) -> ArgsResult
    decreases t.len() - p, 1int,
{
    let q = skip_ws(t, p);
    if !(0 <= p <= q <= t.len()) {
        Err(Seq::empty())
    } else if q < t.len() && t[q] == ',' {
        match parse_at(t, q + 1) {
            Err(m) => Err(m),
            Ok((a, r, w)) => if q + 1 < r <= t.len() {
                match more_args_at(t, r) {
                    Err(m) => Err(m),
                    Ok((rest, end, w2)) => Ok((seq![a] + rest, end, w + w2)),
                }
            } else {
                Err(Seq::empty())
            },
        }
    } else {
        Ok((Seq::empty(), q, Seq::empty()))
    }
}

/// `union(` arguments `)` from `k` (after the parenthesis).
pub open spec fn union_at(t: Seq<char>, k: int) -> PartResult
    decreases t.len() - k, 2int,
{
    match parse_at(t, k) {
        Err(m) => Err(m),
        Ok((first, p, w)) => if k < p <= t.len() {
            match more_args_at(t, p) {
                Err(m) => Err(m),
                Ok((rest, q, w2)) => if 0 <= q < t.len() && t[q] == ')' {
                    Ok((ExprModel::Union(seq![first] + rest), q + 1, w + w2))
                } else {
                    Err("expected ')' or ',' in union(...)"@)
                },
            }
        } else {
            Err(Seq::empty())
        },
    }
}

/// `subtract(` arguments `)` from `k` (after the parenthesis).
pub open spec fn subtract_at(t: Seq<char>, k: int) -> PartResult
    decreases t.len() - k, 2int,
{
    match parse_at(t, k) {
        Err(m) => Err(m),
        Ok((base, p, w)) => if k < p <= t.len() {
            match more_args_at(t, p) {
                Err(m) => Err(m),
                Ok((excluded, q, w2)) => if excluded.len() == 0 {
                    Err("subtract(...) requires at least two arguments"@)
                } else if 0 <= q < t.len() && t[q] == ')' {
                    Ok((ExprModel::Subtract(Box::new(base), excluded), q + 1, w + w2))
                } else {
                    Err("expected ')' or ',' in subtract(...)"@)
                },
            }
        } else {
            Err(Seq::empty())
        },
    }
}

/// The result of parsing the text `s`: the expression and its warnings, or
/// the error message.
pub open spec fn parse_model(s: Seq<char>) -> Result<(ExprModel, Seq<Seq<char>>), Seq<char>> {
    let t = trimmed(s);
    if t.len() == 0 {
        Err("empty expression"@)
    } else if call_at(t, 0, "except"@) is Some {
        let k = call_at(t, 0, "except"@)->0;
        match parse_at(t, k) {
            Err(m) => Err(m),
            Ok((inner, p, w)) => {
                let q = skip_ws(t, p);
                if 0 <= q < t.len() && t[q] == ')' {
                    let rest = trimmed(t.subrange(q + 1, t.len() as int));
                    if rest.len() > 0 {
                        Err(trailing_message(rest))
                    } else {
                        Ok((except_model(inner), w))
                    }
                } else {
                    Err("expected ')' in except(...)"@)
                }
            },
        }
    } else {
        match parse_at(t, 0) {
            Err(m) => Err(m),
            Ok((e, p, w)) => {
                let rest = trimmed(t.subrange(p, t.len() as int));
                if rest.len() > 0 {
                    Err(trailing_message(rest))
                } else {
                    Ok((e, w))
                }
            },
        }
    }
}

// --- Bounds ---

proof fn lemma_skip_ws(t: Seq<char>, i: int)
    requires
        0 <= i <= t.len(),
    ensures
        i <= skip_ws(t, i) <= t.len(),
        skip_ws(t, i) < t.len() ==> !white_space(t[skip_ws(t, i)]),
    decreases t.len() - i,
{
    if i < t.len() && white_space(t[i]) {
        lemma_skip_ws(t, i + 1);
    }
}

proof fn lemma_hex_end(t: Seq<char>, i: int)
    requires
        0 <= i <= t.len(),
    ensures
        i <= hex_end(t, i) <= t.len(),
        forall|k: int| i <= k < hex_end(t, i) ==> hex_char(#[trigger] t[k]),
        hex_end(t, i) < t.len() ==> !hex_char(t[hex_end(t, i)]),
    decreases t.len() - i,
{
    if i < t.len() && hex_char(t[i]) {
        lemma_hex_end(t, i + 1);
    }
}

proof fn lemma_find_char(t: Seq<char>, i: int, c: char)
    requires
        0 <= i,
    ensures
        find_char(t, i, c) matches Some(k) ==> i <= k < t.len() && t[k] == c && forall|m: int|
            i <= m < k ==> t[m] != c,
        find_char(t, i, c) is None ==> forall|m: int| i <= m < t.len() ==> t[m] != c,
    decreases t.len() - i,
{
    if i < t.len() && t[i] != c {
        lemma_find_char(t, i + 1, c);
    }
}

proof fn lemma_call_at(t: Seq<char>, i: int, name: Seq<char>)
    requires
        0 <= i <= t.len(),
    ensures
        call_at(t, i, name) matches Some(k) ==> i + name.len() < k <= t.len(),
{
    if has_at(t, i, name) {
        lemma_skip_ws(t, i + name.len());
    }
}

proof fn lemma_hex_codepoint(t: Seq<char>, k: int)
    requires
        0 <= k <= t.len(),
    ensures
        hex_codepoint(t, k) matches Ok((c, e, w)) ==> k < e <= t.len(),
{
    lemma_skip_ws(t, k);
    lemma_hex_end(t, skip_ws(t, k));
}

proof fn lemma_quoted_literal(t: Seq<char>, j: int, quote: char)
    requires
        0 <= j < t.len(),
    ensures
        quoted_literal(t, j, quote) matches Ok((e, end, w)) ==> j < end <= t.len(),
{
    lemma_find_char(t, j + 1, quote);
}

/// A successful parse consumes at least one character and stays in the
/// text.
proof fn lemma_parse_at(t: Seq<char>, i: int)
    requires
        0 <= i <= t.len(),
    ensures
        parse_at(t, i) matches Ok((e, end, w)) ==> i < end <= t.len(),
    decreases t.len() - i, 0int,
{
    lemma_skip_ws(t, i);
    let j = skip_ws(t, i);
    reveal_strlit("all");
    reveal_strlit("none");
    reveal_strlit("emoji-defaults");
    reveal_strlit("ascii");
    reveal_strlit("rights-marks");
    reveal_strlit("arrows");
    reveal_strlit("card-suits");
    lemma_call_at(t, j, "except"@);
    lemma_call_at(t, j, "subtract"@);
    lemma_call_at(t, j, "union"@);
    lemma_call_at(t, j, "u"@);
    if keyword_expr(t, j) is None && call_at(t, j, "except"@) is None {
        if call_at(t, j, "subtract"@) is Some {
            lemma_subtract_at(t, call_at(t, j, "subtract"@)->0);
        } else if call_at(t, j, "union"@) is Some {
            lemma_union_at(t, call_at(t, j, "union"@)->0);
        } else if call_at(t, j, "u"@) is Some {
            let k = call_at(t, j, "u"@)->0;
            lemma_hex_codepoint(t, k);
            if let Ok((c, m, w)) = hex_codepoint(t, k) {
                lemma_skip_ws(t, m);
            }
        } else if j < t.len() {
            lemma_quoted_literal(t, j, '\'');
            lemma_quoted_literal(t, j, '"');
        }
    }
}

proof fn lemma_more_args_at(t: Seq<char>, p: int)
    requires
        0 <= p <= t.len(),
    ensures
        more_args_at(t, p) matches Ok((args, end, w)) ==> p <= end < t.len() || (p <= end
            && end == t.len()),
    decreases t.len() - p, 1int,
{
    lemma_skip_ws(t, p);
    let q = skip_ws(t, p);
    if q < t.len() && t[q] == ',' {
        lemma_parse_at(t, q + 1);
        if let Ok((a, r, w)) = parse_at(t, q + 1) {
            if q + 1 < r <= t.len() {
                lemma_more_args_at(t, r);
            }
        }
    }
}

proof fn lemma_union_at(t: Seq<char>, k: int)
    requires
        0 <= k <= t.len(),
    ensures
        union_at(t, k) matches Ok((e, end, w)) ==> k < end <= t.len(),
    decreases t.len() - k, 2int,
{
    lemma_parse_at(t, k);
    if let Ok((first, p, w)) = parse_at(t, k) {
        if k < p <= t.len() {
            lemma_more_args_at(t, p);
        }
    }
}

proof fn lemma_subtract_at(t: Seq<char>, k: int)
    requires
        0 <= k <= t.len(),
    ensures
        subtract_at(t, k) matches Ok((e, end, w)) ==> k < end <= t.len(),
    decreases t.len() - k, 2int,
{
    lemma_parse_at(t, k);
    if let Ok((base, p, w)) = parse_at(t, k) {
        if k < p <= t.len() {
            lemma_more_args_at(t, p);
        }
    }
}

// --- Results ---

/// A non-fatal issue found during parsing.
#[derive(Debug, Clone, PartialEq, Eq)]
pub struct ParseWarning {
    /// Human-readable description of the issue.
    pub message: String,
}

impl ParseWarning {
    /// The warning as printed: `expression warning: ` and the message.
    pub fn to_string(&self) -> (r: String)
        ensures
            r@ == "expression warning: "@ + self.message@,
    {
        let mut out = String::from_str("expression warning: ");
        out.append(self.message.as_str());
        out
    }
}

/// A successfully parsed expression, possibly with warnings.
#[derive(Debug, PartialEq, Eq)]
pub struct ParseResult {
    /// The parsed expression.
    pub expr: Expr,
    /// Non-fatal warnings encountered during parsing.
    pub warnings: Vec<ParseWarning>,
}

/// An error encountered while parsing an expression string.
#[derive(Debug, Clone, PartialEq, Eq)]
pub struct ParseError {
    /// Human-readable description of what went wrong.
    pub message: String,
}

impl ParseError {
    /// The error as printed: `expression parse error: ` and the message.
    pub fn to_string(&self) -> (r: String)
        ensures
            r@ == "expression parse error: "@ + self.message@,
    {
        let mut out = String::from_str("expression parse error: ");
        out.append(self.message.as_str());
        out
    }
}

/// The messages of a list of warnings.
pub open spec fn warnings_view(ws: Seq<ParseWarning>) -> Seq<Seq<char>> {
    ws.map_values(|w: ParseWarning| w.message@)
}

/// Whether an executable part result is the model part result `m`.
pub open spec fn part_is(r: Result<(Expr, usize, Vec<ParseWarning>), ParseError>, m: PartResult) -> bool {
    match m {
        Ok((e, end, w)) => r matches Ok((x, xend, xw)) && x@ == e && xend == end && warnings_view(
            xw@,
        ) == w,
        Err(msg) => r matches Err(err) && err.message@ == msg,
    }
}

fn error(message: &str) -> (r: ParseError)
    ensures
        r.message@ == message@,
{
    ParseError { message: String::from_str(message) }
}

// --- Reading the text ---

fn skip_ws_at(t: &Vec<char>, i: usize) -> (r: usize)
    requires
        i <= t.len(),
    ensures
        r == skip_ws(t@, i as int),
{
    let mut j = i;
    while j < t.len() && is_whitespace(t[j])
        invariant
            i <= j <= t.len(),
            skip_ws(t@, j as int) == skip_ws(t@, i as int),
        decreases t.len() - j,
    {
        j = j + 1;
    }
    j
}

fn has_word(t: &Vec<char>, i: usize, word: &Vec<char>) -> (r: bool)
    requires
        i <= t.len(),
    ensures
        r == has_at(t@, i as int, word@),
{
    if word.len() > t.len() - i {
        return false;
    }
    let mut k: usize = 0;
    while k < word.len()
        invariant
            i + word.len() <= t.len(),
            k <= word.len(),
            forall|m: int| 0 <= m < k ==> t@[i + m] == word@[m],
        decreases word.len() - k,
    {
        if t[i + k] != word[k] {
            proof {
                assert(t@.subrange(i as int, i + word.len())[k as int] != word@[k as int]);
            }
            return false;
        }
        k = k + 1;
    }
    proof {
        assert(t@.subrange(i as int, i + word.len()) =~= word@);
    }
    true
}

fn keyword(t: &Vec<char>, i: usize, word: &str) -> (r: bool)
    requires
        i <= t.len(),
    ensures
        r == keyword_at(t@, i as int, word@),
{
    let w = chars_of(word);
    if !has_word(t, i, &w) {
        return false;
    }
    let k = i + w.len();
    k >= t.len() || !(is_alphanumeric(t[k]) || t[k] == '_')
}

fn call(t: &Vec<char>, i: usize, name: &str) -> (r: Option<usize>)
    requires
        i <= t.len(),
    ensures
        match r {
            Some(k) => call_at(t@, i as int, name@) == Some(k as int),
            None => call_at(t@, i as int, name@) is None,
        },
{
    let w = chars_of(name);
    if !has_word(t, i, &w) {
        return None;
    }
    let k = skip_ws_at(t, i + w.len());
    proof {
        lemma_skip_ws(t@, i + w.len());
    }
    if k < t.len() && t[k] == '(' {
        Some(k + 1)
    } else {
        None
    }
}

fn keyword_expr_at(t: &Vec<char>, j: usize) -> (r: Option<(Expr, usize)>)
    requires
        j <= t.len(),
    ensures
        match r {
            Some((e, end)) => keyword_expr(t@, j as int) == Some((e@, end as int)),
            None => keyword_expr(t@, j as int) is None,
        },
{
    proof {
        reveal_strlit("all");
        reveal_strlit("none");
        reveal_strlit("emoji-defaults");
        reveal_strlit("ascii");
        reveal_strlit("rights-marks");
        reveal_strlit("arrows");
        reveal_strlit("card-suits");
    }
    if keyword(t, j, "all") {
        Some((Expr::All, j + 3))
    } else if keyword(t, j, "none") {
        Some((Expr::Nothing, j + 4))
    } else if keyword(t, j, "emoji-defaults") {
        Some((Expr::NamedSet(NamedSetId::EmojiDefaults), j + 14))
    } else if keyword(t, j, "ascii") {
        Some((Expr::NamedSet(NamedSetId::Ascii), j + 5))
    } else if keyword(t, j, "rights-marks") {
        Some((Expr::NamedSet(NamedSetId::RightsMarks), j + 12))
    } else if keyword(t, j, "arrows") {
        Some((Expr::NamedSet(NamedSetId::Arrows), j + 6))
    } else if keyword(t, j, "card-suits") {
        Some((Expr::NamedSet(NamedSetId::CardSuits), j + 10))
    } else {
        None
    }
}

/// The characters of `t` from `a` to `b` as a string.
pub(crate) fn text_of(t: &Vec<char>, a: usize, b: usize) -> (r: String)
    requires
        a <= b <= t.len(),
    ensures
        r@ == t@.subrange(a as int, b as int),
{
    let mut out = String::new();
    let mut k = a;
    while k < b
        invariant
            a <= k <= b <= t.len(),
            out@ == t@.subrange(a as int, k as int),
        decreases b - k,
    {
        push_char(&mut out, t[k]);
        k = k + 1;
        proof {
            assert(out@ =~= t@.subrange(a as int, k as int));
        }
    }
    out
}

/// The `Debug` form of the characters of `t` from `a` to `b`.
fn debug_of(t: &Vec<char>, a: usize, b: usize) -> (r: String)
    requires
        a <= b <= t.len(),
    ensures
        r@ == debug_quoted(t@.subrange(a as int, b as int)),
{
    let text = text_of(t, a, b);
    debug_str(text.as_str())
}

fn digit_of(d: usize) -> (c: char)
    requires
        d < 10,
    ensures
        c == digit_char(d as nat),
{
    if d == 0 {
        '0'
    } else if d == 1 {
        '1'
    } else if d == 2 {
        '2'
    } else if d == 3 {
        '3'
    } else if d == 4 {
        '4'
    } else if d == 5 {
        '5'
    } else if d == 6 {
        '6'
    } else if d == 7 {
        '7'
    } else if d == 8 {
        '8'
    } else {
        '9'
    }
}

/// Appends the decimal digits of `n`.
fn push_decimal(out: &mut String, n: usize)
    ensures
        final(out)@ == old(out)@ + decimal(n as nat),
{
    let mut digits: Vec<char> = Vec::new();
    let mut rest = n;
    while rest >= 10
        invariant
            decimal(n as nat) == decimal(rest as nat) + digits@,
        decreases rest,
    {
        let c = digit_of(rest % 10);
        digits.insert(0, c);
        assert(decimal(rest as nat) == decimal((rest / 10) as nat).push(c));
        rest = rest / 10;
        assert(decimal(n as nat) =~= decimal(rest as nat) + digits@);
    }
    let c = digit_of(rest);
    let ghost tail = digits@;
    digits.insert(0, c);
    assert(decimal(rest as nat) =~= seq![c]);
    assert(digits@ =~= decimal(n as nat));
    let ghost start = out@;
    let mut k: usize = 0;
    while k < digits.len()
        invariant
            k <= digits.len(),
            out@ == start + digits@.take(k as int),
        decreases digits.len() - k,
    {
        push_char(out, digits[k]);
        k = k + 1;
        assert(out@ =~= start + digits@.take(k as int));
    }
    assert(digits@.take(k as int) =~= digits@);
}

pub(crate) fn hex_digit_value(c: char) -> (r: u32)
    requires
        hex_char(c),
    ensures
        r == hex_value(c),
        r < 16,
{
    if '0' <= c && c <= '9' {
        (c as u32) - ('0' as u32)
    } else if 'a' <= c && c <= 'f' {
        (c as u32) - ('a' as u32) + 10
    } else {
        (c as u32) - ('A' as u32) + 10
    }
}

pub(crate) proof fn lemma_hex_number_bound(ds: Seq<char>)
    requires
        forall|k: int| 0 <= k < ds.len() ==> hex_char(#[trigger] ds[k]),
    ensures
        hex_number(ds) < vstd::arithmetic::power::pow(16, ds.len()),
    decreases ds.len(),
{
    vstd::arithmetic::power::lemma_pow_positive(16, ds.len());
    if ds.len() > 0 {
        assert forall|k: int| 0 <= k < ds.drop_last().len() implies hex_char(
            #[trigger] ds.drop_last()[k],
        ) by {
            assert(ds.drop_last()[k] == ds[k]);
        }
        lemma_hex_number_bound(ds.drop_last());
        vstd::arithmetic::power::lemma_pow_adds(16, (ds.len() - 1) as nat, 1);
        vstd::arithmetic::power::lemma_pow1(16);
        assert(hex_value(ds.last()) < 16);
        let p = vstd::arithmetic::power::pow(16, (ds.len() - 1) as nat);
        assert(hex_number(ds.drop_last()) * 16 + hex_value(ds.last()) < p * 16) by (nonlinear_arith)
            requires
                hex_number(ds.drop_last()) < p,
                hex_value(ds.last()) < 16,
        ;
    }
}

fn upper_text(t: &Vec<char>, a: usize, b: usize) -> (r: String)
    requires
        a <= b <= t.len(),
    ensures
        r@ == t@.subrange(a as int, b as int).map_values(|c: char| ascii_upper(c)),
{
    let mut out = String::new();
    let mut k = a;
    while k < b
        invariant
            a <= k <= b <= t.len(),
            out@ == t@.subrange(a as int, k as int).map_values(|c: char| ascii_upper(c)),
        decreases b - k,
    {
        let c = t[k];
        let u = if 'a' <= c && c <= 'z' {
            ((c as u8) - 32) as char
        } else {
            c
        };
        proof {
            if 'a' <= c && c <= 'z' {
                assert(u == ascii_upper(c));
            }
        }
        push_char(&mut out, u);
        k = k + 1;
        proof {
            assert(out@ =~= t@.subrange(a as int, k as int).map_values(|c: char| ascii_upper(c)));
        }
    }
    out
}

/// The code point of `u(HEX)` at `k`, with the position after the digits.
fn hex_codepoint_at(t: &Vec<char>, k: usize) -> (r: Result<(char, usize, Vec<ParseWarning>), ParseError>)
    requires
        k <= t.len(),
    ensures
        match hex_codepoint(t@, k as int) {
            Ok((c, e, w)) => r matches Ok((x, xe, xw)) && x == c && xe == e && warnings_view(xw@)
                == w,
            Err(m) => r matches Err(err) && err.message@ == m,
        },
{
    let a = skip_ws_at(t, k);
    proof {
        lemma_skip_ws(t@, k as int);
    }
    let mut e = a;
    while e < t.len() && (('0' <= t[e] && t[e] <= '9') || ('a' <= t[e] && t[e] <= 'f') || ('A'
        <= t[e] && t[e] <= 'F'))
        invariant
            a <= e <= t.len(),
            hex_end(t@, e as int) == hex_end(t@, a as int),
        decreases t.len() - e,
    {
        e = e + 1;
    }
    proof {
        lemma_hex_end(t@, a as int);
    }
    let ghost digits = t@.subrange(a as int, e as int);
    let n = e - a;
    if n < 4 || n > 6 {
        let mut message = String::from_str("u(...) requires exactly 4, 5, or 6 hex digits, got ");
        push_decimal(&mut message, n);
        message.append(": ");
        let shown = debug_of(t, a, e);
        message.append(shown.as_str());
        return Err(ParseError { message });
    }
    let mut lower = false;
    let mut upper = false;
    let mut value: u32 = 0;
    let mut m = a;
    proof {
        assert(t@.subrange(a as int, a as int) =~= Seq::<char>::empty());
    }
    while m < e
        invariant
            a <= m <= e <= t.len(),
            e - a <= 6,
            digits == t@.subrange(a as int, e as int),
            forall|q: int| a <= q < e ==> hex_char(#[trigger] t@[q]),
            lower == exists|j: int| a <= j < m && 'a' <= #[trigger] t@[j] <= 'z',
            upper == exists|j: int| a <= j < m && 'A' <= #[trigger] t@[j] <= 'Z',
            value == hex_number(t@.subrange(a as int, m as int)),
        decreases e - m,
    {
        let c = t[m];
        if 'a' <= c && c <= 'z' {
            lower = true;
        }
        if 'A' <= c && c <= 'Z' {
            upper = true;
        }
        proof {
            let next = t@.subrange(a as int, m + 1);
            assert(next.drop_last() =~= t@.subrange(a as int, m as int));
            assert(forall|q: int| 0 <= q < next.len() ==> hex_char(#[trigger] next[q]));
            lemma_hex_number_bound(next);
            vstd::arithmetic::power::lemma_pow_increases(16, next.len(), 6);
            assert(vstd::arithmetic::power::pow(16, 6) == 16777216) by {
                vstd::arithmetic::power::lemma_pow_positive(16, 6);
                reveal_with_fuel(vstd::arithmetic::power::pow, 7);
            }
        }
        value = value * 16 + hex_digit_value(c);
        m = m + 1;
    }
    let mut warnings: Vec<ParseWarning> = Vec::new();
    proof {
        assert(lower == exists|j: int| 0 <= j < n && 'a' <= #[trigger] digits[j] <= 'z') by {
            if lower {
                let j = choose|j: int| a <= j < m && 'a' <= #[trigger] t@[j] <= 'z';
                assert(digits[j - a] == t@[j]);
            }
        }
        assert(upper == exists|j: int| 0 <= j < n && 'A' <= #[trigger] digits[j] <= 'Z') by {
            if upper {
                let j = choose|j: int| a <= j < m && 'A' <= #[trigger] t@[j] <= 'Z';
                assert(digits[j - a] == t@[j]);
            }
        }
        assert(warnings_view(warnings@) =~= Seq::<Seq<char>>::empty());
    }
    if lower && upper {
        let mut message = String::from_str("u(");
        let hex = text_of(t, a, e);
        message.append(hex.as_str());
        message.append(") uses mixed-case hex; canonical form is u(");
        let canonical = upper_text(t, a, e);
        message.append(canonical.as_str());
        message.append(")");
        warnings.push(ParseWarning { message });
        proof {
            assert(warnings_view(warnings@) =~= seq![
                "u("@ + digits + ") uses mixed-case hex; canonical form is u("@ + digits.map_values(
                    |c: char| ascii_upper(c),
                ) + ")"@,
            ]);
        }
    }
    match char_from_u32(value) {
        Some(c) => Ok((c, e, warnings)),
        None => {
            let mut message = String::from_str("U+");
            push_hex4(&mut message, value);
            message.append(" is not a valid Unicode scalar value");
            Err(ParseError { message })
        },
    }
}

proof fn lemma_code_points(cs: Seq<char>)
    ensures
        code_points(cs).len() == cs.len(),
        forall|k: int| 0 <= k < cs.len() ==> #[trigger] code_points(cs)[k] == code_point_model(cs[k]),
    decreases cs.len(),
{
    if cs.len() > 0 {
        lemma_code_points(cs.drop_last());
        assert forall|k: int| 0 <= k < cs.len() implies #[trigger] code_points(cs)[k]
            == code_point_model(cs[k]) by {
            if k < cs.len() - 1 {
                assert(cs.drop_last()[k] == cs[k]);
            }
        }
    }
}

proof fn lemma_exprs_model_indexed(es: Seq<Expr>, ms: Seq<ExprModel>)
    requires
        es.len() == ms.len(),
        forall|k: int| 0 <= k < es.len() ==> #[trigger] crate::expr::expr_model(es[k]) == ms[k],
    ensures
        crate::expr::exprs_model(es) == ms,
    decreases es.len(),
{
    if es.len() > 0 {
        assert forall|k: int| 0 <= k < es.drop_first().len() implies #[trigger] crate::expr::expr_model(
            es.drop_first()[k],
        ) == ms.drop_first()[k] by {
            assert(es.drop_first()[k] == es[k + 1]);
        }
        lemma_exprs_model_indexed(es.drop_first(), ms.drop_first());
        assert(crate::expr::expr_model(es[0]) == ms[0]);
        assert(crate::expr::exprs_model(es) == seq![crate::expr::expr_model(es[0])]
            + crate::expr::exprs_model(es.drop_first()));
        assert(ms =~= seq![ms[0]] + ms.drop_first());
    }
}

fn code_point(c: char) -> (r: Expr)
    ensures
        r == Expr::CodePoint(c),
        r@ == code_point_model(c),
{
    Expr::CodePoint(c)
}

/// A quoted literal at `j`, whose opening quote is `quote`.
fn quoted_at(t: &Vec<char>, j: usize, quote: char) -> (r: Result<(Expr, usize, Vec<ParseWarning>), ParseError>)
    requires
        j < t.len(),
    ensures
        part_is(r, quoted_literal(t@, j as int, quote)),
{
    let single = quote == '\'';
    let mut close = j + 1;
    while close < t.len() && t[close] != quote
        invariant
            j + 1 <= close <= t.len(),
            find_char(t@, close as int, quote) == find_char(t@, j + 1, quote),
        decreases t.len() - close,
    {
        close = close + 1;
    }
    let ghost empty_warnings = warnings_view(Seq::<ParseWarning>::empty());
    proof {
        assert(empty_warnings =~= Seq::<Seq<char>>::empty());
    }
    if close >= t.len() {
        return Err(
            if single {
                error("unterminated single-quoted literal")
            } else {
                error("unterminated double-quoted literal")
            },
        );
    }
    if close == j + 1 {
        return Err(
            if single {
                error("empty single-quoted literal")
            } else {
                error("empty double-quoted literal")
            },
        );
    }
    let mut kept: Vec<char> = Vec::new();
    let mut k = j + 1;
    while k < close
        invariant
            j + 1 <= k <= close < t.len(),
            kept@ == without_selectors(t@.subrange(j + 1, k as int)),
        decreases close - k,
    {
        let c = t[k];
        proof {
            let next = t@.subrange(j + 1, k + 1);
            assert(next.drop_last() =~= t@.subrange(j + 1, k as int));
            assert(next.last() == c);
        }
        if c != '\u{FE0E}' && c != '\u{FE0F}' {
            kept.push(c);
        }
        k = k + 1;
    }
    if single {
        if kept.len() == 1 {
            Ok((code_point(kept[0]), close + 1, Vec::new()))
        } else {
            Err(error("single-quoted literal must contain exactly one non-selector character"))
        }
    } else if kept.len() == 0 {
        Err(error("double-quoted literal must contain at least one non-selector character"))
    } else if kept.len() == 1 {
        Ok((code_point(kept[0]), close + 1, Vec::new()))
    } else {
        let mut parts: Vec<Expr> = Vec::new();
        let mut m: usize = 0;
        while m < kept.len()
            invariant
                m <= kept.len(),
                parts@.len() == m,
                forall|q: int| 0 <= q < m ==> #[trigger] parts@[q] == Expr::CodePoint(kept@[q]),
            decreases kept.len() - m,
        {
            let e = code_point(kept[m]);
            parts.push(e);
            m = m + 1;
        }
        proof {
            lemma_code_points(kept@);
            lemma_exprs_model_indexed(parts@, code_points(kept@));
        }
        Ok((Expr::Union(parts), close + 1, Vec::new()))
    }
}

/// Whether an executable argument-list result is the model result `m`.
pub open spec fn args_is(r: Result<(Vec<Expr>, usize, Vec<ParseWarning>), ParseError>, m: ArgsResult) -> bool {
    match m {
        Ok((args, end, w)) => r matches Ok((xs, xend, xw)) && crate::expr::exprs_model(xs@)
            == args && xend == end && warnings_view(xw@) == w,
        Err(msg) => r matches Err(err) && err.message@ == msg,
    }
}

proof fn lemma_warnings_append(a: Seq<ParseWarning>, b: Seq<ParseWarning>)
    ensures
        warnings_view(a + b) == warnings_view(a) + warnings_view(b),
{
    assert(warnings_view(a + b) =~= warnings_view(a) + warnings_view(b));
}

/// One expression at `i`.
fn parse_at_exec(t: &Vec<char>, i: usize) -> (r: Result<(Expr, usize, Vec<ParseWarning>), ParseError>)
    requires
        i <= t.len(),
    ensures
        part_is(r, parse_at(t@, i as int)),
    decreases t.len() - i, 0int,
{
    let j = skip_ws_at(t, i);
    proof {
        lemma_skip_ws(t@, i as int);
        lemma_call_at(t@, j as int, "subtract"@);
        lemma_call_at(t@, j as int, "union"@);
        lemma_call_at(t@, j as int, "u"@);
    }
    match keyword_expr_at(t, j) {
        Some((e, end)) => {
            proof {
                assert(warnings_view(Seq::<ParseWarning>::empty()) =~= Seq::<Seq<char>>::empty());
            }
            return Ok((e, end, Vec::new()));
        },
        None => {},
    }
    if call(t, j, "except").is_some() {
        return Err(
            error("except(...) is only allowed at the top level; use subtract(all, ...) instead"),
        );
    }
    match call(t, j, "subtract") {
        Some(k) => {
            return subtract_exec(t, k);
        },
        None => {},
    }
    match call(t, j, "union") {
        Some(k) => {
            return union_exec(t, k);
        },
        None => {},
    }
    match call(t, j, "u") {
        Some(k) => {
            proof {
                lemma_hex_codepoint(t@, k as int);
            }
            match hex_codepoint_at(t, k) {
                Err(err) => {
                    return Err(err);
                },
                Ok((c, m, w)) => {
                    let n = skip_ws_at(t, m);
                    if n < t.len() && t[n] == ')' {
                        return Ok((Expr::CodePoint(c), n + 1, w));
                    } else {
                        return Err(error("expected ')' in u(...)"));
                    }
                },
            }
        },
        None => {},
    }
    if j < t.len() && t[j] == '\'' {
        return quoted_at(t, j, '\'');
    }
    if j < t.len() && t[j] == '"' {
        return quoted_at(t, j, '"');
    }
    let mut message = String::from_str("unexpected input: ");
    let shown = debug_of(t, j, t.len());
    message.append(shown.as_str());
    Err(ParseError { message })
}

/// The arguments after the first of a call, from `p`.
fn more_args_exec(t: &Vec<char>, p: usize) -> (r: Result<(Vec<Expr>, usize, Vec<ParseWarning>), ParseError>)
    requires
        p <= t.len(),
    ensures
        args_is(r, more_args_at(t@, p as int)),
    decreases t.len() - p, 1int,
{
    let q = skip_ws_at(t, p);
    proof {
        lemma_skip_ws(t@, p as int);
    }
    if q < t.len() && t[q] == ',' {
        proof {
            lemma_parse_at(t@, q + 1);
        }
        match parse_at_exec(t, q + 1) {
            Err(err) => Err(err),
            Ok((a, r, w)) => {
                match more_args_exec(t, r) {
                    Err(err) => Err(err),
                    Ok((mut rest, end, w2)) => {
                        let ghost rest_models = crate::expr::exprs_model(rest@);
                        let ghost a_model = a@;
                        let ghost old_seq = rest@;
                        rest.insert(0, a);
                        let mut w = w;
                        let mut w2 = w2;
                        let ghost wa = w@;
                        let ghost wb = w2@;
                        w.append(&mut w2);
                        proof {
                            lemma_warnings_append(wa, wb);
                            assert(rest@.drop_first() =~= old_seq);
                            assert(crate::expr::expr_model(rest@[0]) == a_model);
                            assert(crate::expr::exprs_model(rest@) =~= seq![a_model] + rest_models);
                        }
                        Ok((rest, end, w))
                    },
                }
            },
        }
    } else {
        proof {
            assert(crate::expr::exprs_model(Seq::<Expr>::empty()) =~= Seq::<ExprModel>::empty());
            assert(warnings_view(Seq::<ParseWarning>::empty()) =~= Seq::<Seq<char>>::empty());
        }
        Ok((Vec::new(), q, Vec::new()))
    }
}

/// `union(` arguments `)` from `k`.
fn union_exec(t: &Vec<char>, k: usize) -> (r: Result<(Expr, usize, Vec<ParseWarning>), ParseError>)
    requires
        k <= t.len(),
    ensures
        part_is(r, union_at(t@, k as int)),
    decreases t.len() - k, 2int,
{
    proof {
        lemma_parse_at(t@, k as int);
    }
    match parse_at_exec(t, k) {
        Err(err) => Err(err),
        Ok((first, p, w)) => {
            proof {
                lemma_more_args_at(t@, p as int);
            }
            match more_args_exec(t, p) {
                Err(err) => Err(err),
                Ok((mut rest, q, w2)) => {
                    if q < t.len() && t[q] == ')' {
                        let ghost rest_models = crate::expr::exprs_model(rest@);
                        let ghost first_model = first@;
                        let ghost old_seq = rest@;
                        rest.insert(0, first);
                        let mut w = w;
                        let mut w2 = w2;
                        let ghost wa = w@;
                        let ghost wb = w2@;
                        w.append(&mut w2);
                        proof {
                            lemma_warnings_append(wa, wb);
                            assert(rest@.drop_first() =~= old_seq);
                            assert(crate::expr::expr_model(rest@[0]) == first_model);
                            assert(crate::expr::exprs_model(rest@) =~= seq![first_model] + rest_models);
                        }
                        Ok((Expr::Union(rest), q + 1, w))
                    } else {
                        Err(error("expected ')' or ',' in union(...)"))
                    }
                },
            }
        },
    }
}

/// `subtract(` arguments `)` from `k`.
fn subtract_exec(t: &Vec<char>, k: usize) -> (r: Result<(Expr, usize, Vec<ParseWarning>), ParseError>)
    requires
        k <= t.len(),
    ensures
        part_is(r, subtract_at(t@, k as int)),
    decreases t.len() - k, 2int,
{
    proof {
        lemma_parse_at(t@, k as int);
    }
    match parse_at_exec(t, k) {
        Err(err) => Err(err),
        Ok((base, p, w)) => {
            proof {
                lemma_more_args_at(t@, p as int);
            }
            match more_args_exec(t, p) {
                Err(err) => Err(err),
                Ok((excluded, q, w2)) => {
                    if excluded.len() == 0 {
                        Err(error("subtract(...) requires at least two arguments"))
                    } else if q < t.len() && t[q] == ')' {
                        let mut w = w;
                        let mut w2 = w2;
                        let ghost wa = w@;
                        let ghost wb = w2@;
                        w.append(&mut w2);
                        proof {
                            lemma_warnings_append(wa, wb);
                        }
                        Ok((Expr::Subtract(Box::new(base), excluded), q + 1, w))
                    } else {
                        Err(error("expected ')' or ',' in subtract(...)"))
                    }
                },
            }
        },
    }
}

/// The characters of `v` from `a` to `b`.
fn copy_range(v: &Vec<char>, a: usize, b: usize) -> (r: Vec<char>)
    requires
        a <= b <= v.len(),
    ensures
        r@ == v@.subrange(a as int, b as int),
{
    let mut out: Vec<char> = Vec::new();
    let mut k = a;
    while k < b
        invariant
            a <= k <= b <= v.len(),
            out@ == v@.subrange(a as int, k as int),
        decreases b - k,
    {
        out.push(v[k]);
        k = k + 1;
        proof {
            assert(out@ =~= v@.subrange(a as int, k as int));
        }
    }
    out
}

/// `v` without leading and trailing white space.
pub(crate) fn trim_chars(v: &Vec<char>) -> (r: Vec<char>)
    ensures
        r@ == trimmed(v@),
{
    let lo = skip_ws_at(v, 0);
    proof {
        lemma_skip_ws(v@, 0);
    }
    let mut hi = v.len();
    while hi > lo && is_whitespace(v[hi - 1])
        invariant
            lo <= hi <= v.len(),
            lo == skip_ws(v@, 0),
            trim_end(v@, lo as int, hi as int) == trim_end(v@, lo as int, v.len() as int),
        decreases hi,
    {
        hi = hi - 1;
    }
    copy_range(v, lo, hi)
}

/// The message for trailing text `rest`.
fn trailing_error(rest: &Vec<char>) -> (r: ParseError)
    ensures
        r.message@ == trailing_message(rest@),
{
    let mut message = String::from_str("unexpected trailing text: ");
    let shown = debug_of(rest, 0, rest.len());
    proof {
        assert(rest@.subrange(0, rest.len() as int) =~= rest@);
    }
    message.append(shown.as_str());
    ParseError { message }
}

/// Parse a complete expression string: the expression and the warnings
/// raised, or the error of [`parse_model`].
/// The result of parsing the trimmed text `t`.
pub open spec fn parse_trimmed(t: Seq<char>) -> Result<(ExprModel, Seq<Seq<char>>), Seq<char>> {
    if t.len() == 0 {
        Err("empty expression"@)
    } else if call_at(t, 0, "except"@) is Some {
        except_at(t, call_at(t, 0, "except"@)->0)
    } else {
        match parse_at(t, 0) {
            Err(m) => Err(m),
            Ok((e, p, w)) => {
                let rest = trimmed(t.subrange(p, t.len() as int));
                if rest.len() > 0 {
                    Err(trailing_message(rest))
                } else {
                    Ok((e, w))
                }
            },
        }
    }
}

/// `except(e)`: everything but `e`.
pub open spec fn except_model(inner: ExprModel) -> ExprModel {
    ExprModel::Subtract(Box::new(ExprModel::All), seq![inner])
}

/// `except(` expression `)` from `k`, which must end the text.
pub open spec fn except_at(t: Seq<char>, k: int) -> Result<(ExprModel, Seq<Seq<char>>), Seq<char>> {
    match parse_at(t, k) {
        Err(m) => Err(m),
        Ok((inner, p, w)) => {
            let q = skip_ws(t, p);
            if 0 <= q < t.len() && t[q] == ')' {
                let rest = trimmed(t.subrange(q + 1, t.len() as int));
                if rest.len() > 0 {
                    Err(trailing_message(rest))
                } else {
                    Ok((except_model(inner), w))
                }
            } else {
                Err("expected ')' in except(...)"@)
            }
        },
    }
}

/// Whether an executable top-level result is the model result `m`.
pub open spec fn top_is(
    r: Result<(Expr, Vec<ParseWarning>), ParseError>,
    m: Result<(ExprModel, Seq<Seq<char>>), Seq<char>>,
) -> bool {
    match m {
        Ok((e, w)) => r matches Ok((x, xw)) && x@ == e && warnings_view(xw@) == w,
        Err(msg) => r matches Err(err) && err.message@ == msg,
    }
}

fn except_exec(t: &Vec<char>, k: usize) -> (r: Result<(Expr, Vec<ParseWarning>), ParseError>)
    requires
        k <= t.len(),
    ensures
        top_is(r, except_at(t@, k as int)),
{
    proof {
        lemma_parse_at(t@, k as int);
    }
    match parse_at_exec(t, k) {
        Err(err) => Err(err),
        Ok((inner, p, w)) => {
            let q = skip_ws_at(t, p);
            proof {
                lemma_skip_ws(t@, p as int);
            }
            if q < t.len() && t[q] == ')' {
                let tail = copy_range(t, q + 1, t.len());
                let rest = trim_chars(&tail);
                if rest.len() > 0 {
                    Err(trailing_error(&rest))
                } else {
                    let mut excluded: Vec<Expr> = Vec::new();
                    let ghost inner_model = inner@;
                    excluded.push(inner);
                    proof {
                        assert(excluded@.drop_first() =~= Seq::<Expr>::empty());
                        assert(crate::expr::exprs_model(excluded@.drop_first())
                            =~= Seq::<ExprModel>::empty());
                        assert(crate::expr::exprs_model(excluded@) =~= seq![inner_model]);
                    }
                    let e = Expr::Subtract(Box::new(Expr::All), excluded);
                    proof {
                        assert(crate::expr::expr_model(Expr::All) == ExprModel::All);
                        assert(e@ == ExprModel::Subtract(Box::new(crate::expr::expr_model(Expr::All)), crate::expr::exprs_model(excluded@)));
                        assert(e@ == except_model(inner_model));
                    }
                    Ok((e, w))
                }
            } else {
                Err(error("expected ')' in except(...)"))
            }
        },
    }
}

fn parse_trimmed_exec(t: &Vec<char>) -> (r: Result<(Expr, Vec<ParseWarning>), ParseError>)
    ensures
        top_is(r, parse_trimmed(t@)),
{
    if t.len() == 0 {
        return Err(error("empty expression"));
    }
    match call(t, 0, "except") {
        Some(k) => {
            proof {
                lemma_call_at(t@, 0, "except"@);
            }
            except_exec(t, k)
        },
        None => {
            match parse_at_exec(t, 0) {
                Err(err) => Err(err),
                Ok((e, p, w)) => {
                    proof {
                        lemma_parse_at(t@, 0);
                    }
                    let tail = copy_range(t, p, t.len());
                    let rest = trim_chars(&tail);
                    if rest.len() > 0 {
                        Err(trailing_error(&rest))
                    } else {
                        Ok((e, w))
                    }
                },
            }
        },
    }
}

/// Parse a complete expression string: the expression and the warnings
/// raised, or the error of [`parse_model`].
pub fn parse(input: &str) -> (r: Result<ParseResult, ParseError>)
    ensures
        match parse_model(input@) {
            Ok((e, w)) => r matches Ok(pr) && pr.expr@ == e && warnings_view(pr.warnings@) == w,
            Err(m) => r matches Err(err) && err.message@ == m,
        },
{
    let chars = chars_of(input);
    let t = trim_chars(&chars);
    proof {
        assert(parse_model(input@) == parse_trimmed(t@));
    }
    match parse_trimmed_exec(&t) {
        Ok((expr, warnings)) => Ok(ParseResult { expr, warnings }),
        Err(err) => Err(err),
    }
}

/// Parse a complete expression string, discarding any warnings.
pub fn parse_expr_only(input: &str) -> (r: Result<Expr, ParseError>)
    ensures
        match parse_model(input@) {
            Ok((e, w)) => r matches Ok(x) && x@ == e,
            Err(m) => r matches Err(err) && err.message@ == m,
        },
{
    match parse(input) {
        Ok(result) => Ok(result.expr),
        Err(err) => Err(err),
    }
}

} // verus!
