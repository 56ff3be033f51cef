//! Finite policy-key sets for formatter policy.
//!
//! Each policy key is one variation-sequence base plus one domain:
//!
//! - ordinary, for non-keycap selector slots
//! - keycap-character, where the same base is followed by
//!   `U+20E3 COMBINING ENCLOSING KEYCAP`

use vstd::prelude::*;

use crate::charset::{self, join_items, member_items, universe, CharSet, NamedSet};
use crate::unicode::{has_vs, VARIATION_ENTRY_COUNT};

verus! {

/// A finite set of formatter policy keys.
///
/// The universe has two domains: non-keycap and keycap-character. Both domains
/// are indexed by the variation-sequence base table. Characters outside that
/// table never form policy keys, including in [`PolicyKeySet::all`].
#[derive(Debug, Clone, Copy, PartialEq, Eq)]
pub struct PolicyKeySet {
    chars: CharSet,
    keycap_chars: CharSet,
}

/// Return whether `ch` is an eligible variation-sequence base character.
///
/// This checks for a base code point in the crate's pinned
/// `emoji-variation-sequences.txt` data, not for a complete base-plus-selector
/// sequence.
pub fn is_variation_sequence_character(ch: char) -> (r: bool)
    ensures
        r == has_vs(ch),
{
    charset::is_variation_sequence_character(ch)
}

impl PolicyKeySet {
    /// The ordinary (non-keycap) positions in the set.
    pub closed spec fn ordinary(self) -> Set<char> {
        self.chars@
    }

    /// The keycap-character positions in the set.
    pub closed spec fn keycap(self) -> Set<char> {
        self.keycap_chars@
    }

    /// The display form of the set.
    pub closed spec fn display(self) -> Seq<char> {
        let a = member_items(self.chars, 'u', VARIATION_ENTRY_COUNT as int);
        let b = member_items(self.keycap_chars, 'k', VARIATION_ENTRY_COUNT as int);
        if a.len() == 0 && b.len() == 0 {
            "none"@
        } else if (forall|k: int| 0 <= k < VARIATION_ENTRY_COUNT ==> #[trigger] self.chars.has_index(k))
            && (forall|k: int| 0 <= k < VARIATION_ENTRY_COUNT ==> #[trigger] self.keycap_chars.has_index(k)) {
            "all"@
        } else {
            join_items(a, true) + join_items(b, a.len() == 0)
        }
    }

    pub closed spec fn spec_complement(self) -> PolicyKeySet {
        PolicyKeySet { chars: CharSet::spec_all(), keycap_chars: CharSet::spec_all() }.spec_combine(self, 3)
    }

    pub closed spec fn spec_combine(self, rhs: PolicyKeySet, op: int) -> PolicyKeySet {
        if op == 0 {
            PolicyKeySet { chars: self.chars.spec_union(rhs.chars), keycap_chars: self.keycap_chars.spec_union(rhs.keycap_chars) }
        } else if op == 1 {
            PolicyKeySet { chars: self.chars.spec_intersection(rhs.chars), keycap_chars: self.keycap_chars.spec_intersection(rhs.keycap_chars) }
        } else if op == 2 {
            PolicyKeySet { chars: self.chars.spec_sym_diff(rhs.chars), keycap_chars: self.keycap_chars.spec_sym_diff(rhs.keycap_chars) }
        } else {
            PolicyKeySet { chars: self.chars.spec_difference(rhs.chars), keycap_chars: self.keycap_chars.spec_difference(rhs.keycap_chars) }
        }
    }

    /// Construct the set containing every eligible ordinary and keycap
    /// position.
    pub fn all() -> (r: Self)
        ensures
            r.ordinary() == universe(),
            r.keycap() == universe(),
    {
        PolicyKeySet { chars: CharSet::all(), keycap_chars: CharSet::all() }
    }

    /// Construct the empty set.
    pub fn none() -> (r: Self)
        ensures
            r.ordinary() == Set::<char>::empty(),
            r.keycap() == Set::<char>::empty(),
    {
        PolicyKeySet { chars: CharSet::none(), keycap_chars: CharSet::none() }
    }

    /// Construct a singleton set containing one eligible ordinary code point.
    ///
    /// Returns the empty set when `ch` is outside the variation-sequence
    /// character universe checked by [`is_variation_sequence_character`].
    pub fn singleton(ch: char) -> (r: Self)
        ensures
            r.ordinary() == (if has_vs(ch) { set![ch] } else { Set::<char>::empty() }),
            r.keycap() == Set::<char>::empty(),
    {
        PolicyKeySet { chars: CharSet::singleton(ch), keycap_chars: CharSet::none() }
    }

    /// Construct a singleton set containing one eligible keycap-character
    /// position.
    ///
    /// Returns the empty set when `ch` is outside the variation-sequence
    /// character universe checked by [`is_variation_sequence_character`].
    pub fn singleton_keycap(ch: char) -> (r: Self)
        ensures
            r.ordinary() == Set::<char>::empty(),
            r.keycap() == (if has_vs(ch) { set![ch] } else { Set::<char>::empty() }),
    {
        PolicyKeySet { chars: CharSet::none(), keycap_chars: CharSet::singleton(ch) }
    }

    /// Return whether the set contains the given ordinary character position.
    pub fn contains(&self, ch: char) -> (r: bool)
        ensures
            r == self.ordinary().contains(ch),
    {
        self.chars.contains(ch)
    }

    /// Return whether the set contains the given keycap-character position.
    pub fn contains_keycap(&self, ch: char) -> (r: bool)
        ensures
            r == self.keycap().contains(ch),
    {
        self.keycap_chars.contains(ch)
    }

    /// A set whose ordinary positions are the members of `id`.
    fn named_ordinary(id: NamedSet) -> (r: Self)
        ensures
            r.ordinary() == charset::named_members(id),
            r.keycap() == Set::<char>::empty(),
    {
        PolicyKeySet { chars: CharSet::named(id), keycap_chars: CharSet::none() }
    }

    /// A set whose keycap-character positions are the members of `id`.
    fn named_keycap(id: NamedSet) -> (r: Self)
        ensures
            r.ordinary() == Set::<char>::empty(),
            r.keycap() == charset::named_members(id),
    {
        PolicyKeySet { chars: CharSet::none(), keycap_chars: CharSet::named(id) }
    }

    fn combine(self, rhs: PolicyKeySet, op: u8) -> (r: PolicyKeySet)
        requires
            op < 4,
        ensures
            r == self.spec_combine(rhs, op as int),
            r.ordinary() == (if op == 0 {
                self.ordinary().union(rhs.ordinary())
            } else if op == 1 {
                self.ordinary().intersect(rhs.ordinary())
            } else if op == 2 {
                self.ordinary().union(rhs.ordinary()).difference(self.ordinary().intersect(rhs.ordinary()))
            } else {
                self.ordinary().difference(rhs.ordinary())
            }),
            r.keycap() == (if op == 0 {
                self.keycap().union(rhs.keycap())
            } else if op == 1 {
                self.keycap().intersect(rhs.keycap())
            } else if op == 2 {
                self.keycap().union(rhs.keycap()).difference(self.keycap().intersect(rhs.keycap()))
            } else {
                self.keycap().difference(rhs.keycap())
            }),
    {
        proof {
            CharSet::lemma_ops_view(self.chars, rhs.chars);
            CharSet::lemma_ops_view(self.keycap_chars, rhs.keycap_chars);
        }
        let chars = if op == 0 {
            self.chars | rhs.chars
        } else if op == 1 {
            self.chars & rhs.chars
        } else if op == 2 {
            self.chars ^ rhs.chars
        } else {
            self.chars - rhs.chars
        };
        let keycap_chars = if op == 0 {
            self.keycap_chars | rhs.keycap_chars
        } else if op == 1 {
            self.keycap_chars & rhs.keycap_chars
        } else if op == 2 {
            self.keycap_chars ^ rhs.keycap_chars
        } else {
            self.keycap_chars - rhs.keycap_chars
        };
        PolicyKeySet { chars, keycap_chars }
    }

    /// The display form: `none`, `all`, or the ordinary members' `u(HEX)`
    /// items followed by the keycap members' `k(HEX)` items, in table order
    /// and separated by commas.
    pub fn to_string(&self) -> (r: String)
        ensures
            r@ == self.display(),
    {
        let mut out = String::new();
        let first = self.chars.push_members(&mut out, 'u', true);
        let first = self.keycap_chars.push_members(&mut out, 'k', first);
        if first {
            proof { reveal_strlit("none"); }
            return String::from_str("none");
        }
        if self.chars.is_full() && self.keycap_chars.is_full() {
            proof { reveal_strlit("all"); }
            return String::from_str("all");
        }
        out
    }
}

/// ASCII characters (U+0000-U+007F).
pub fn ascii() -> (r: PolicyKeySet)
    ensures
        r.ordinary() == charset::named_members(NamedSet::Ascii),
        r.keycap() == Set::<char>::empty(),
{
    PolicyKeySet::named_ordinary(NamedSet::Ascii)
}

/// Variation-sequence characters whose Unicode default side is text.
pub fn text_defaults() -> (r: PolicyKeySet)
    ensures
        r.ordinary() == charset::named_members(NamedSet::TextDefaults),
        r.keycap() == Set::<char>::empty(),
{
    PolicyKeySet::named_ordinary(NamedSet::TextDefaults)
}

/// Variation-sequence characters whose Unicode default side is emoji.
pub fn emoji_defaults() -> (r: PolicyKeySet)
    ensures
        r.ordinary() == charset::named_members(NamedSet::EmojiDefaults),
        r.keycap() == Set::<char>::empty(),
{
    PolicyKeySet::named_ordinary(NamedSet::EmojiDefaults)
}

/// ©️ (U+00A9), ®️ (U+00AE), ™️ (U+2122).
pub fn rights_marks() -> (r: PolicyKeySet)
    ensures
        r.ordinary() == charset::named_members(NamedSet::RightsMarks),
        r.keycap() == Set::<char>::empty(),
{
    PolicyKeySet::named_ordinary(NamedSet::RightsMarks)
}

/// Arrow characters used by the formatter policy docs.
pub fn arrows() -> (r: PolicyKeySet)
    ensures
        r.ordinary() == charset::named_members(NamedSet::Arrows),
        r.keycap() == Set::<char>::empty(),
{
    PolicyKeySet::named_ordinary(NamedSet::Arrows)
}

/// ♠️ (U+2660), ♣️ (U+2663), ♥️ (U+2665), ♦️ (U+2666).
pub fn card_suits() -> (r: PolicyKeySet)
    ensures
        r.ordinary() == charset::named_members(NamedSet::CardSuits),
        r.keycap() == Set::<char>::empty(),
{
    PolicyKeySet::named_ordinary(NamedSet::CardSuits)
}

/// Every ordinary non-keycap variation-sequence base position.
pub fn non_keycap_chars() -> (r: PolicyKeySet)
    ensures
        r.ordinary() == universe(),
        r.keycap() == Set::<char>::empty(),
{
    PolicyKeySet { chars: CharSet::all(), keycap_chars: CharSet::none() }
}

/// Every keycap-character position for a variation-sequence base.
pub fn keycap_chars() -> (r: PolicyKeySet)
    ensures
        r.ordinary() == Set::<char>::empty(),
        r.keycap() == universe(),
{
    PolicyKeySet { chars: CharSet::none(), keycap_chars: CharSet::all() }
}

/// RGI emoji keycap bases (`#`, `*`, `0`-`9`) in keycap-character positions.
pub fn keycap_emojis() -> (r: PolicyKeySet)
    ensures
        r.ordinary() == Set::<char>::empty(),
        r.keycap() == charset::named_members(NamedSet::KeycapEmojis),
{
    PolicyKeySet::named_keycap(NamedSet::KeycapEmojis)
}

/// Every non-keycap policy key for a variation-sequence base.
pub fn variation_bases() -> (r: PolicyKeySet)
    ensures
        r.ordinary() == universe(),
        r.keycap() == Set::<char>::empty(),
{
    PolicyKeySet { chars: CharSet::all(), keycap_chars: CharSet::none() }
}

/// Text-default variation-sequence bases as keycap-character policy keys.
pub fn keycap_text_defaults() -> (r: PolicyKeySet)
    ensures
        r.ordinary() == Set::<char>::empty(),
        r.keycap() == charset::named_members(NamedSet::TextDefaults),
{
    PolicyKeySet::named_keycap(NamedSet::TextDefaults)
}

/// Emoji-default variation-sequence bases as keycap-character policy keys.
pub fn keycap_emoji_defaults() -> (r: PolicyKeySet)
    ensures
        r.ordinary() == Set::<char>::empty(),
        r.keycap() == charset::named_members(NamedSet::EmojiDefaults),
{
    PolicyKeySet::named_keycap(NamedSet::EmojiDefaults)
}

/// Every keycap-character policy key for a variation-sequence base.
pub fn keycap_variation_bases() -> (r: PolicyKeySet)
    ensures
        r.ordinary() == Set::<char>::empty(),
        r.keycap() == universe(),
{
    PolicyKeySet { chars: CharSet::none(), keycap_chars: CharSet::all() }
}

/// RGI emoji keycap bases (`#`, `*`, `0`-`9`) as keycap-character policy keys.
pub fn keycap_rgi() -> (r: PolicyKeySet)
    ensures
        r.ordinary() == Set::<char>::empty(),
        r.keycap() == charset::named_members(NamedSet::KeycapEmojis),
{
    PolicyKeySet::named_keycap(NamedSet::KeycapEmojis)
}

impl vstd::std_specs::ops::BitOrSpecImpl for PolicyKeySet {
    open spec fn obeys_bitor_spec() -> bool {
        true
    }

    open spec fn bitor_req(self, rhs: PolicyKeySet) -> bool {
        true
    }

    open spec fn bitor_spec(self, rhs: PolicyKeySet) -> PolicyKeySet {
        self.spec_combine(rhs, 0)
    }
}

impl core::ops::BitOr for PolicyKeySet {
    type Output = PolicyKeySet;

    fn bitor(self, rhs: PolicyKeySet) -> (r: PolicyKeySet)
        ensures
            r.ordinary() == self.ordinary().union(rhs.ordinary()),
            r.keycap() == self.keycap().union(rhs.keycap()),
    {
        self.combine(rhs, 0)
    }
}

impl core::ops::BitOrAssign for PolicyKeySet {
    fn bitor_assign(&mut self, rhs: PolicyKeySet)
        ensures
            final(self).ordinary() == old(self).ordinary().union(rhs.ordinary()),
            final(self).keycap() == old(self).keycap().union(rhs.keycap()),
    {
        *self = self.combine(rhs, 0);
    }
}

impl vstd::std_specs::ops::BitAndSpecImpl for PolicyKeySet {
    open spec fn obeys_bitand_spec() -> bool {
        true
    }

    open spec fn bitand_req(self, rhs: PolicyKeySet) -> bool {
        true
    }

    open spec fn bitand_spec(self, rhs: PolicyKeySet) -> PolicyKeySet {
        self.spec_combine(rhs, 1)
    }
}

impl core::ops::BitAnd for PolicyKeySet {
    type Output = PolicyKeySet;

    fn bitand(self, rhs: PolicyKeySet) -> (r: PolicyKeySet)
        ensures
            r.ordinary() == self.ordinary().intersect(rhs.ordinary()),
            r.keycap() == self.keycap().intersect(rhs.keycap()),
    {
        self.combine(rhs, 1)
    }
}

impl core::ops::BitAndAssign for PolicyKeySet {
    fn bitand_assign(&mut self, rhs: PolicyKeySet)
        ensures
            final(self).ordinary() == old(self).ordinary().intersect(rhs.ordinary()),
            final(self).keycap() == old(self).keycap().intersect(rhs.keycap()),
    {
        *self = self.combine(rhs, 1);
    }
}

impl vstd::std_specs::ops::BitXorSpecImpl for PolicyKeySet {
    open spec fn obeys_bitxor_spec() -> bool {
        true
    }

    open spec fn bitxor_req(self, rhs: PolicyKeySet) -> bool {
        true
    }

    open spec fn bitxor_spec(self, rhs: PolicyKeySet) -> PolicyKeySet {
        self.spec_combine(rhs, 2)
    }
}

impl core::ops::BitXor for PolicyKeySet {
    type Output = PolicyKeySet;

    fn bitxor(self, rhs: PolicyKeySet) -> (r: PolicyKeySet)
        ensures
            r.ordinary() == self.ordinary().union(rhs.ordinary()).difference(self.ordinary().intersect(rhs.ordinary())),
            r.keycap() == self.keycap().union(rhs.keycap()).difference(self.keycap().intersect(rhs.keycap())),
    {
        self.combine(rhs, 2)
    }
}

impl core::ops::BitXorAssign for PolicyKeySet {
    fn bitxor_assign(&mut self, rhs: PolicyKeySet)
        ensures
            final(self).ordinary() == old(self).ordinary().union(rhs.ordinary()).difference(old(self).ordinary().intersect(rhs.ordinary())),
            final(self).keycap() == old(self).keycap().union(rhs.keycap()).difference(old(self).keycap().intersect(rhs.keycap())),
    {
        *self = self.combine(rhs, 2);
    }
}

impl vstd::std_specs::ops::SubSpecImpl for PolicyKeySet {
    open spec fn obeys_sub_spec() -> bool {
        true
    }

    open spec fn sub_req(self, rhs: PolicyKeySet) -> bool {
        true
    }

    open spec fn sub_spec(self, rhs: PolicyKeySet) -> PolicyKeySet {
        self.spec_combine(rhs, 3)
    }
}

impl core::ops::Sub for PolicyKeySet {
    type Output = PolicyKeySet;

    fn sub(self, rhs: PolicyKeySet) -> (r: PolicyKeySet)
        ensures
            r.ordinary() == self.ordinary().difference(rhs.ordinary()),
            r.keycap() == self.keycap().difference(rhs.keycap()),
    {
        self.combine(rhs, 3)
    }
}

impl core::ops::SubAssign for PolicyKeySet {
    fn sub_assign(&mut self, rhs: PolicyKeySet)
        ensures
            final(self).ordinary() == old(self).ordinary().difference(rhs.ordinary()),
            final(self).keycap() == old(self).keycap().difference(rhs.keycap()),
    {
        *self = self.combine(rhs, 3);
    }
}

impl vstd::std_specs::ops::NotSpecImpl for PolicyKeySet {
    open spec fn obeys_not_spec() -> bool {
        true
    }

    open spec fn not_req(self) -> bool {
        true
    }

    open spec fn not_spec(self) -> PolicyKeySet {
        self.spec_complement()
    }
}

impl core::ops::Not for PolicyKeySet {
    type Output = PolicyKeySet;

    /// The complement within the universe of both domains.
    fn not(self) -> (r: PolicyKeySet)
        ensures
            r.ordinary() == universe().difference(self.ordinary()),
            r.keycap() == universe().difference(self.keycap()),
    {
        proof {
            CharSet::lemma_all_none_view();
        }
        let all = PolicyKeySet { chars: CharSet::all(), keycap_chars: CharSet::all() };
        all.combine(self, 3)
    }
}

impl Default for PolicyKeySet {
    fn default() -> (r: PolicyKeySet)
        ensures
            r.ordinary() == Set::<char>::empty(),
            r.keycap() == Set::<char>::empty(),
    {
        PolicyKeySet::none()
    }
}

impl PolicyKeySet {
    /// The ordinary (non-keycap) domain as a character set.
    pub fn chars(&self) -> (r: CharSet)
        ensures
            r@ == self.ordinary(),
    {
        self.chars
    }

    /// The keycap-character domain as a character set.
    pub fn keycap_chars(&self) -> (r: CharSet)
        ensures
            r@ == self.keycap(),
    {
        self.keycap_chars
    }
}

/// Whether the table entry for `ch` belongs to the named set `id`.
pub fn named_entry_matches(id: NamedSet, ch: char) -> (r: bool)
    ensures
        r == charset::named_entry(id, ch, crate::unicode::emoji_default(ch)),
{
    charset::named_entry_matches(id, ch, crate::unicode::is_emoji_default(ch))
}

} // verus!
