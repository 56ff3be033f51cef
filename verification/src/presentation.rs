//! Presentation style requested by text/emoji variation selectors.

use vstd::prelude::*;

use crate::unicode;

verus! {

/// A presentation style requested by a variation selector.
///
/// Text presentation is requested by `U+FE0E` (VS15); emoji presentation by
/// `U+FE0F` (VS16).
#[derive(Debug, Clone, Copy, PartialEq, Eq, Structural)]
pub enum Presentation {
    /// Text presentation, requested by `U+FE0E`.
    Text,
    /// Emoji presentation, requested by `U+FE0F`.
    Emoji,
}

/// The variation selector character that requests `p`.
pub open spec fn selector_char(p: Presentation) -> char {
    match p {
        Presentation::Text => '\u{FE0E}',
        Presentation::Emoji => '\u{FE0F}',
    }
}

/// Whether `ch` is one of the two presentation selectors.
pub open spec fn is_selector_char(ch: char) -> bool {
    ch == '\u{FE0E}' || ch == '\u{FE0F}'
}

/// The presentation requested by a selector character.
pub open spec fn presentation_of(ch: char) -> Option<Presentation> {
    if ch == '\u{FE0E}' {
        Some(Presentation::Text)
    } else if ch == '\u{FE0F}' {
        Some(Presentation::Emoji)
    } else {
        None
    }
}

/// The selector characters for a run of presentations, in order.
pub open spec fn selector_chars(ps: Seq<Presentation>) -> Seq<char> {
    ps.map_values(|p: Presentation| selector_char(p))
}

impl Presentation {
    /// Return the variation selector character that requests this
    /// presentation.
    pub fn as_selector(self) -> (r: char)
        ensures
            r == selector_char(self),
    {
        match self {
            Presentation::Text => unicode::TEXT_PRESENTATION_SELECTOR,
            Presentation::Emoji => unicode::EMOJI_PRESENTATION_SELECTOR,
        }
    }

    /// Parse a variation selector character into the presentation it requests.
    ///
    /// Returns `None` if the character is not `U+FE0E` or `U+FE0F`.
    pub fn from_selector(ch: char) -> (r: Option<Self>)
        ensures
            r == presentation_of(ch),
    {
        if ch == unicode::TEXT_PRESENTATION_SELECTOR {
            Some(Presentation::Text)
        } else if ch == unicode::EMOJI_PRESENTATION_SELECTOR {
            Some(Presentation::Emoji)
        } else {
            None
        }
    }
}

/// Selector characters and presentations correspond one to one.
pub proof fn lemma_selector_round_trip(p: Presentation)
    ensures
        presentation_of(selector_char(p)) == Some(p),
        is_selector_char(selector_char(p)),
{
}

/// `t` with every presentation selector removed.
pub open spec fn strip_selectors(t: Seq<char>) -> Seq<char>
    decreases t.len(),
{
    if t.len() == 0 {
        Seq::empty()
    } else if is_selector_char(t.last()) {
        strip_selectors(t.drop_last())
    } else {
        strip_selectors(t.drop_last()).push(t.last())
    }
}

/// Removing selectors distributes over concatenation.
pub proof fn lemma_strip_concat(a: Seq<char>, b: Seq<char>)
    ensures
        strip_selectors(a + b) == strip_selectors(a) + strip_selectors(b),
    decreases b.len(),
{
    if b.len() == 0 {
        assert(a + b =~= a);
        assert(strip_selectors(a) + strip_selectors(b) =~= strip_selectors(a));
    } else {
        lemma_strip_concat(a, b.drop_last());
        assert((a + b).drop_last() =~= a + b.drop_last());
        assert((a + b).last() == b.last());
        if is_selector_char(b.last()) {
        } else {
            assert(strip_selectors(a + b) =~= strip_selectors(a) + strip_selectors(b));
        }
    }
}

/// A run of selectors strips to nothing.
pub proof fn lemma_strip_selector_chars(ps: Seq<Presentation>)
    ensures
        strip_selectors(selector_chars(ps)) == Seq::<char>::empty(),
    decreases ps.len(),
{
    if ps.len() > 0 {
        lemma_strip_selector_chars(ps.drop_last());
        assert(selector_chars(ps).drop_last() =~= selector_chars(ps.drop_last()));
    }
}

} // verus!
