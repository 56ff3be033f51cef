//! Formatter policy configuration.
//!
//! Policy applies only to selector slots whose state remains ambiguous after
//! sequence-specific cleanup. Ordinary and keycap-character slots query the
//! corresponding domains of the same variation sets; ZWJ, malformed-selector
//! and other fixed-cleanup cases are repaired before policy is consulted.
//!
//! A policy is two [`VariationSet`] predicates:
//!
//! - `prefer_bare`: positions for which bare spelling is canonical when bare
//!   can preserve the selected presentation
//! - `bare_as_text`: positions for which bare spelling is read as text
//!   presentation, rather than emoji presentation

use vstd::prelude::*;

use crate::charset::{named_members, universe, NamedSet};
use crate::variation_set::{self, VariationSet};

verus! {

/// How a standalone variation-sequence base is canonicalized, decided by the
/// two policy sets.
#[derive(Debug, Clone, Copy, PartialEq, Eq, Structural)]
pub enum SingletonRule {
    /// Bare is not canonical; bare resolves to emoji presentation.
    BareToEmoji,
    /// Bare is not canonical; bare resolves to text presentation.
    BareToText,
    /// Bare is canonical and means text; an explicit text selector is redundant.
    TextToBare,
    /// Bare is canonical and means emoji; an explicit emoji selector is redundant.
    EmojiToBare,
}

/// The rule for a position given its membership in `prefer_bare` and
/// `bare_as_text`.
pub open spec fn rule_of(prefer_bare: bool, bare_as_text: bool) -> SingletonRule {
    match (prefer_bare, bare_as_text) {
        (false, false) => SingletonRule::BareToEmoji,
        (false, true) => SingletonRule::BareToText,
        (true, false) => SingletonRule::EmojiToBare,
        (true, true) => SingletonRule::TextToBare,
    }
}

/// Whether `set` holds `base` in the ordinary or the keycap domain.
pub open spec fn holds_position(set: VariationSet, base: char, is_keycap: bool) -> bool {
    if is_keycap {
        set.keycap().contains(base)
    } else {
        set.ordinary().contains(base)
    }
}

/// Formatting policy for ambiguous selector slots.
///
/// The pair of answers for a position determines the canonical outcome:
///
/// - in both sets: `FE0E` text presentation becomes bare, bare stays bare
/// - only in `prefer_bare`: `FE0F` emoji presentation becomes bare, bare stays bare
/// - only in `bare_as_text`: bare becomes `FE0E` text presentation
/// - in neither set: bare becomes `FE0F` emoji presentation
#[derive(Debug, Clone, Copy, PartialEq, Eq)]
#[non_exhaustive]
pub struct Policy {
    prefer_bare: VariationSet,
    bare_as_text: VariationSet,
}

impl Policy {
    /// Positions for which bare spelling is canonical when it preserves
    /// presentation.
    pub closed spec fn prefer_bare_set(self) -> VariationSet {
        self.prefer_bare
    }

    /// Positions for which bare spelling represents text presentation.
    pub closed spec fn bare_as_text_set(self) -> VariationSet {
        self.bare_as_text
    }

    /// The rule this policy applies to `base` in the given domain.
    pub open spec fn rule(self, base: char, is_keycap: bool) -> SingletonRule {
        rule_of(
            holds_position(self.prefer_bare_set(), base, is_keycap),
            holds_position(self.bare_as_text_set(), base, is_keycap),
        )
    }

    /// Return this policy with a new `prefer_bare` set.
    pub fn with_prefer_bare(self, prefer_bare: VariationSet) -> (r: Self)
        ensures
            r.prefer_bare_set() == prefer_bare,
            r.bare_as_text_set() == self.bare_as_text_set(),
    {
        Policy { prefer_bare, bare_as_text: self.bare_as_text }
    }

    /// Return this policy with `prefer_bare` replaced by what `modify` makes
    /// of it.
    pub fn modify_prefer_bare<F: FnOnce(VariationSet) -> VariationSet>(self, modify: F) -> (r: Self)
        requires
            modify.requires((self.prefer_bare_set(),)),
        ensures
            modify.ensures((self.prefer_bare_set(),), r.prefer_bare_set()),
            r.bare_as_text_set() == self.bare_as_text_set(),
    {
        let prefer_bare = modify(self.prefer_bare);
        Policy { prefer_bare, bare_as_text: self.bare_as_text }
    }

    /// Return this policy with a new `bare_as_text` set.
    pub fn with_bare_as_text(self, bare_as_text: VariationSet) -> (r: Self)
        ensures
            r.bare_as_text_set() == bare_as_text,
            r.prefer_bare_set() == self.prefer_bare_set(),
    {
        Policy { prefer_bare: self.prefer_bare, bare_as_text }
    }

    /// Return this policy with `bare_as_text` replaced by what `modify` makes
    /// of it.
    pub fn modify_bare_as_text<F: FnOnce(VariationSet) -> VariationSet>(self, modify: F) -> (r: Self)
        requires
            modify.requires((self.bare_as_text_set(),)),
        ensures
            modify.ensures((self.bare_as_text_set(),), r.bare_as_text_set()),
            r.prefer_bare_set() == self.prefer_bare_set(),
    {
        let bare_as_text = modify(self.bare_as_text);
        Policy { prefer_bare: self.prefer_bare, bare_as_text }
    }

    /// The rule for `base`, read from the keycap domain when `is_keycap`
    /// and from the ordinary domain otherwise.
    pub fn singleton_rule(&self, base: char, is_keycap: bool) -> (r: SingletonRule)
        ensures
            r == self.rule(base, is_keycap),
    {
        let prefer_bare = if is_keycap {
            self.prefer_bare.contains_keycap(base)
        } else {
            self.prefer_bare.contains(base)
        };
        let bare_as_text = if is_keycap {
            self.bare_as_text.contains_keycap(base)
        } else {
            self.bare_as_text.contains(base)
        };
        match (prefer_bare, bare_as_text) {
            (false, false) => SingletonRule::BareToEmoji,
            (false, true) => SingletonRule::BareToText,
            (true, false) => SingletonRule::EmojiToBare,
            (true, true) => SingletonRule::TextToBare,
        }
    }
}

impl Default for Policy {
    /// ASCII and emoji-default positions prefer bare; ASCII and every
    /// keycap-character position read bare as text.
    fn default() -> (r: Self)
        ensures
            r.prefer_bare_set().ordinary() == named_members(NamedSet::Ascii).union(
                named_members(NamedSet::EmojiDefaults),
            ),
            r.prefer_bare_set().keycap() == Set::<char>::empty(),
            r.bare_as_text_set().ordinary() == named_members(NamedSet::Ascii),
            r.bare_as_text_set().keycap() == universe(),
    {
        Policy {
            prefer_bare: variation_set::ascii() | variation_set::emoji_defaults(),
            bare_as_text: variation_set::ascii() | variation_set::keycap_chars(),
        }
    }
}

} // verus!
