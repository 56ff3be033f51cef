//! Finite character sets over the variation-sequence base table.
//!
//! The universe is exactly the set of code points listed in the pinned
//! `emoji-variation-sequences.txt` data. A set is a bitmap indexed by the
//! position of each base in [`unicode::VARIATION_ENTRIES`].

use vstd::prelude::*;

use crate::text::{hex4, push_char, push_hex4};
use crate::unicode::{self, has_vs, vs_index, VARIATION_ENTRIES, VARIATION_ENTRY_COUNT};

verus! {

/// Mask of the bits of the last word that index table entries.
pub const LAST_WORD_MASK: u64 = 0x7_FFFF_FFFF_FFFF;

/// Whether bit `s` of `w` is set.
pub open spec fn word_bit(w: u64, s: int) -> bool {
    (w >> (s as u64)) & 1u64 == 1u64
}

/// The set of variation-sequence bases whose table index satisfies `f`.
pub open spec fn bases_where(f: spec_fn(int) -> bool) -> Set<char> {
    Set::new(|c: char| has_vs(c) && f(vs_index(c)))
}

/// Every variation-sequence base.
pub open spec fn universe() -> Set<char> {
    Set::new(|c: char| has_vs(c))
}

/// A finite set of dual-presentation characters.
///
/// The universe is exactly the generated variation-sequence table. Characters
/// outside that universe are never members, including in [`CharSet::all`].
#[derive(Debug, Clone, Copy, PartialEq, Eq)]
pub struct CharSet {
    bits: [u64; 6],
}

proof fn lemma_bit_or(a: u64, b: u64, s: u64)
    by (bit_vector)
    requires
        s < 64,
    ensures
        (((a | b) >> s) & 1u64 == 1u64) == (((a >> s) & 1u64 == 1u64) || ((b >> s) & 1u64 == 1u64)),
{
}

proof fn lemma_bit_and(a: u64, b: u64, s: u64)
    by (bit_vector)
    requires
        s < 64,
    ensures
        (((a & b) >> s) & 1u64 == 1u64) == (((a >> s) & 1u64 == 1u64) && ((b >> s) & 1u64 == 1u64)),
{
}

proof fn lemma_bit_xor(a: u64, b: u64, s: u64)
    by (bit_vector)
    requires
        s < 64,
    ensures
        (((a ^ b) >> s) & 1u64 == 1u64) == (((a >> s) & 1u64 == 1u64) != ((b >> s) & 1u64 == 1u64)),
{
}

proof fn lemma_bit_andnot(a: u64, b: u64, s: u64)
    by (bit_vector)
    requires
        s < 64,
    ensures
        (((a & !b) >> s) & 1u64 == 1u64) == (((a >> s) & 1u64 == 1u64) && !((b >> s) & 1u64 == 1u64)),
{
}

proof fn lemma_bit_set(w: u64, s: u64, t: u64)
    by (bit_vector)
    requires
        s < 64,
        t < 64,
    ensures
        (((w | (1u64 << s)) >> t) & 1u64 == 1u64) == (t == s || ((w >> t) & 1u64 == 1u64)),
{
}

proof fn lemma_bit_full(t: u64)
    by (bit_vector)
    requires
        t < 64,
    ensures
        (0xFFFF_FFFF_FFFF_FFFFu64 >> t) & 1u64 == 1u64,
        !((0u64 >> t) & 1u64 == 1u64),
        ((0x7_FFFF_FFFF_FFFFu64 >> t) & 1u64 == 1u64) == (t < 51),
{
}

impl CharSet {
    /// Whether the bit for table index `k` is set.
    pub closed spec fn has_index(self, k: int) -> bool {
        0 <= k < VARIATION_ENTRY_COUNT && word_bit(self.bits@[k / 64], k % 64)
    }

    /// The characters in the set.
    pub closed spec fn view(self) -> Set<char> {
        bases_where(|k: int| self.has_index(k))
    }

    /// Word-wise union of the bitmaps.
    pub closed spec fn spec_union(self, rhs: CharSet) -> CharSet {
        CharSet {
            bits: [
                self.bits[0] | rhs.bits[0],
                self.bits[1] | rhs.bits[1],
                self.bits[2] | rhs.bits[2],
                self.bits[3] | rhs.bits[3],
                self.bits[4] | rhs.bits[4],
                self.bits[5] | rhs.bits[5],
            ],
        }
    }

    /// Word-wise intersection of the bitmaps.
    pub closed spec fn spec_intersection(self, rhs: CharSet) -> CharSet {
        CharSet {
            bits: [
                self.bits[0] & rhs.bits[0],
                self.bits[1] & rhs.bits[1],
                self.bits[2] & rhs.bits[2],
                self.bits[3] & rhs.bits[3],
                self.bits[4] & rhs.bits[4],
                self.bits[5] & rhs.bits[5],
            ],
        }
    }

    /// Word-wise symmetric difference of the bitmaps.
    pub closed spec fn spec_sym_diff(self, rhs: CharSet) -> CharSet {
        CharSet {
            bits: [
                self.bits[0] ^ rhs.bits[0],
                self.bits[1] ^ rhs.bits[1],
                self.bits[2] ^ rhs.bits[2],
                self.bits[3] ^ rhs.bits[3],
                self.bits[4] ^ rhs.bits[4],
                self.bits[5] ^ rhs.bits[5],
            ],
        }
    }

    /// Word-wise difference of the bitmaps.
    pub closed spec fn spec_difference(self, rhs: CharSet) -> CharSet {
        CharSet {
            bits: [
                self.bits[0] & !rhs.bits[0],
                self.bits[1] & !rhs.bits[1],
                self.bits[2] & !rhs.bits[2],
                self.bits[3] & !rhs.bits[3],
                self.bits[4] & !rhs.bits[4],
                self.bits[5] & !rhs.bits[5],
            ],
        }
    }

    /// The full set as a bitmap.
    pub closed spec fn spec_all() -> CharSet {
        CharSet {
            bits: [
                0xFFFF_FFFF_FFFF_FFFFu64,
                0xFFFF_FFFF_FFFF_FFFFu64,
                0xFFFF_FFFF_FFFF_FFFFu64,
                0xFFFF_FFFF_FFFF_FFFFu64,
                0xFFFF_FFFF_FFFF_FFFFu64,
                LAST_WORD_MASK,
            ],
        }
    }

    /// The empty set as a bitmap.
    pub closed spec fn spec_none() -> CharSet {
        CharSet { bits: [0u64, 0u64, 0u64, 0u64, 0u64, 0u64] }
    }

    proof fn lemma_index_split(k: int)
        requires
            0 <= k < VARIATION_ENTRY_COUNT,
        ensures
            0 <= k / 64 < 6,
            0 <= k % 64 < 64,
            k / 64 == 5 ==> k % 64 < 51,
    {
    }

    proof fn lemma_union_index(a: CharSet, b: CharSet, k: int)
        requires
            0 <= k < VARIATION_ENTRY_COUNT,
        ensures
            a.spec_union(b).has_index(k) == (a.has_index(k) || b.has_index(k)),
            a.spec_intersection(b).has_index(k) == (a.has_index(k) && b.has_index(k)),
            a.spec_sym_diff(b).has_index(k) == (a.has_index(k) != b.has_index(k)),
            a.spec_difference(b).has_index(k) == (a.has_index(k) && !b.has_index(k)),
    {
        Self::lemma_index_split(k);
        let w = k / 64;
        let s = (k % 64) as u64;
        lemma_bit_or(a.bits@[w], b.bits@[w], s);
        lemma_bit_and(a.bits@[w], b.bits@[w], s);
        lemma_bit_xor(a.bits@[w], b.bits@[w], s);
        lemma_bit_andnot(a.bits@[w], b.bits@[w], s);
        assert(a.spec_union(b).bits@[w] == a.bits@[w] | b.bits@[w]);
        assert(a.spec_intersection(b).bits@[w] == a.bits@[w] & b.bits@[w]);
        assert(a.spec_sym_diff(b).bits@[w] == a.bits@[w] ^ b.bits@[w]);
        assert(a.spec_difference(b).bits@[w] == a.bits@[w] & !b.bits@[w]);
    }

    /// Views of the word-wise operations are the corresponding set operations.
    pub proof fn lemma_ops_view(a: CharSet, b: CharSet)
        ensures
            a.spec_union(b)@ == a@.union(b@),
            a.spec_intersection(b)@ == a@.intersect(b@),
            a.spec_difference(b)@ == a@.difference(b@),
            a.spec_sym_diff(b)@ == a@.union(b@).difference(a@.intersect(b@)),
    {
        assert forall|c: char| has_vs(c) implies (a.spec_union(b).has_index(vs_index(c)) == (
        a.has_index(vs_index(c)) || b.has_index(vs_index(c))) && a.spec_intersection(b).has_index(
            vs_index(c),
        ) == (a.has_index(vs_index(c)) && b.has_index(vs_index(c))) && a.spec_sym_diff(
            b,
        ).has_index(vs_index(c)) == (a.has_index(vs_index(c)) != b.has_index(vs_index(c)))
            && a.spec_difference(b).has_index(vs_index(c)) == (a.has_index(vs_index(c))
            && !b.has_index(vs_index(c)))) by {
            unicode::lemma_vs_index(c);
            Self::lemma_union_index(a, b, vs_index(c));
        }
        assert(a.spec_union(b)@ =~= a@.union(b@));
        assert(a.spec_intersection(b)@ =~= a@.intersect(b@));
        assert(a.spec_difference(b)@ =~= a@.difference(b@));
        assert(a.spec_sym_diff(b)@ =~= a@.union(b@).difference(a@.intersect(b@)));
    }

    /// The full and empty bitmaps view as the universe and the empty set.
    pub proof fn lemma_all_none_view()
        ensures
            Self::spec_all()@ == universe(),
            Self::spec_none()@ == Set::<char>::empty(),
            forall|k: int| !#[trigger] Self::spec_none().has_index(k),
            forall|k: int| #[trigger] Self::spec_all().has_index(k) == (0 <= k < VARIATION_ENTRY_COUNT),
    {
        assert forall|k: int| 0 <= k < VARIATION_ENTRY_COUNT implies Self::spec_all().has_index(k)
            && !Self::spec_none().has_index(k) by {
            Self::lemma_index_split(k);
            lemma_bit_full((k % 64) as u64);
        }
        assert forall|c: char| has_vs(c) implies Self::spec_all().has_index(vs_index(c))
            && !Self::spec_none().has_index(vs_index(c)) by {
            unicode::lemma_vs_index(c);
            Self::lemma_index_split(vs_index(c));
            lemma_bit_full((vs_index(c) % 64) as u64);
        }
        assert(Self::spec_all()@ =~= universe());
        assert(Self::spec_none()@ =~= Set::<char>::empty());
    }

    /// Construct the set containing every eligible character.
    pub fn all() -> (r: Self)
        ensures
            r@ == universe(),
            r == Self::spec_all(),
    {
        proof {
            Self::lemma_all_none_view();
        }
        let r = CharSet {
            bits: [
                0xFFFF_FFFF_FFFF_FFFFu64,
                0xFFFF_FFFF_FFFF_FFFFu64,
                0xFFFF_FFFF_FFFF_FFFFu64,
                0xFFFF_FFFF_FFFF_FFFFu64,
                0xFFFF_FFFF_FFFF_FFFFu64,
                LAST_WORD_MASK,
            ],
        };
        assert(r == Self::spec_all()) by {
            assert(r.bits@ =~= Self::spec_all().bits@);
            broadcast use vstd::array::axiom_array_ext_equal;
        }
        r
    }

    /// Construct the empty set.
    pub fn none() -> (r: Self)
        ensures
            r@ == Set::<char>::empty(),
            forall|k: int| !#[trigger] r.has_index(k),
            r == Self::spec_none(),
    {
        proof {
            Self::lemma_all_none_view();
        }
        let r = CharSet { bits: [0u64, 0u64, 0u64, 0u64, 0u64, 0u64] };
        assert(r == Self::spec_none()) by {
            assert(r.bits@ =~= Self::spec_none().bits@);
            broadcast use vstd::array::axiom_array_ext_equal;
        }
        r
    }

    /// Add the base at table index `index`.
    pub(crate) fn insert_index(&mut self, index: usize)
        requires
            index < VARIATION_ENTRY_COUNT,
        ensures
            forall|k: int| #[trigger] final(self).has_index(k) == (k == index || old(self).has_index(k)),
    {
        let word = index / 64;
        let bit = (index % 64) as u64;
        proof {
            Self::lemma_index_split(index as int);
        }
        let ghost before = *self;
        self.bits[word] = self.bits[word] | (1u64 << bit);
        proof {
            assert forall|k: int| #[trigger] self.has_index(k) == (k == index || before.has_index(k)) by {
                if 0 <= k < VARIATION_ENTRY_COUNT {
                    Self::lemma_index_split(k);
                    let t = (k % 64) as u64;
                    if k / 64 == word as int {
                        lemma_bit_set(before.bits@[word as int], bit, t);
                        assert(k % 64 == bit ==> k == index);
                    }
                }
            }
        }
    }

    /// Construct a singleton set containing one eligible code point.
    ///
    /// Returns the empty set when `ch` is outside the variation-sequence
    /// character universe checked by [`is_variation_sequence_character`].
    pub fn singleton(ch: char) -> (r: Self)
        ensures
            r@ == (if has_vs(ch) { set![ch] } else { Set::<char>::empty() }),
    {
        let mut set = Self::none();
        if let Some(index) = unicode::variation_sequence_index(ch) {
            set.insert_index(index);
            proof {
                assert forall|c: char| #[trigger] set@.contains(c) == (c == ch) by {
                    unicode::lemma_vs_index(c);
                    unicode::lemma_vs_index(ch);
                }
                assert(set@ =~= set![ch]);
            }
        }
        set
    }

    /// Return whether the set contains the given character.
    pub fn contains(&self, ch: char) -> (r: bool)
        ensures
            r == self@.contains(ch),
    {
        match unicode::variation_sequence_index(ch) {
            None => false,
            Some(index) => {
                proof {
                    Self::lemma_index_split(index as int);
                }
                let word = index / 64;
                let bit = (index % 64) as u64;
                (self.bits[word] >> bit) & 1u64 == 1u64
            },
        }
    }

    /// Whether the base at table index `index` is a member.
    pub(crate) fn contains_index(&self, index: usize) -> (r: bool)
        requires
            index < VARIATION_ENTRY_COUNT,
        ensures
            r == self.has_index(index as int),
    {
        proof {
            Self::lemma_index_split(index as int);
        }
        (self.bits[index / 64] >> ((index % 64) as u64)) & 1u64 == 1u64
    }

    fn words_op(self, rhs: CharSet, op: u8) -> (r: CharSet)
        requires
            op < 4,
        ensures
            op == 0 ==> r == self.spec_union(rhs),
            op == 1 ==> r == self.spec_intersection(rhs),
            op == 2 ==> r == self.spec_sym_diff(rhs),
            op == 3 ==> r == self.spec_difference(rhs),
    {
        let mut out = self;
        let mut i: usize = 0;
        while i < 6
            invariant
                i <= 6,
                op < 4,
                forall|j: int| i <= j < 6 ==> out.bits@[j] == self.bits@[j],
                forall|j: int|
                    0 <= j < i ==> out.bits@[j] == (if op == 0 {
                        self.bits@[j] | rhs.bits@[j]
                    } else if op == 1 {
                        self.bits@[j] & rhs.bits@[j]
                    } else if op == 2 {
                        self.bits@[j] ^ rhs.bits@[j]
                    } else {
                        self.bits@[j] & !rhs.bits@[j]
                    }),
            decreases 6 - i,
        {
            let a = out.bits[i];
            let b = rhs.bits[i];
            out.bits[i] = if op == 0 {
                a | b
            } else if op == 1 {
                a & b
            } else if op == 2 {
                a ^ b
            } else {
                a & !b
            };
            i = i + 1;
        }
        proof {
            broadcast use vstd::array::axiom_array_ext_equal;

            if op == 0 {
                assert(out.bits@ =~= self.spec_union(rhs).bits@);
                assert(out.bits == self.spec_union(rhs).bits);
            } else if op == 1 {
                assert(out.bits@ =~= self.spec_intersection(rhs).bits@);
                assert(out.bits == self.spec_intersection(rhs).bits);
            } else if op == 2 {
                assert(out.bits@ =~= self.spec_sym_diff(rhs).bits@);
                assert(out.bits == self.spec_sym_diff(rhs).bits);
            } else {
                assert(out.bits@ =~= self.spec_difference(rhs).bits@);
                assert(out.bits == self.spec_difference(rhs).bits);
            }
        }
        out
    }
}


impl vstd::std_specs::ops::BitOrSpecImpl for CharSet {
    open spec fn obeys_bitor_spec() -> bool {
        true
    }

    open spec fn bitor_req(self, rhs: CharSet) -> bool {
        true
    }

    open spec fn bitor_spec(self, rhs: CharSet) -> CharSet {
        self.spec_union(rhs)
    }
}

impl core::ops::BitOr for CharSet {
    type Output = CharSet;

    fn bitor(self, rhs: CharSet) -> (r: CharSet)
        ensures
            r@ == self@.union(rhs@),
    {
        proof {
            CharSet::lemma_ops_view(self, rhs);
        }
        self.words_op(rhs, 0)
    }
}

impl core::ops::BitOrAssign for CharSet {
    fn bitor_assign(&mut self, rhs: CharSet)
        ensures
            final(self)@ == old(self)@.union(rhs@),
    {
        proof {
            CharSet::lemma_ops_view(*self, rhs);
        }
        *self = self.words_op(rhs, 0);
    }
}

impl vstd::std_specs::ops::BitAndSpecImpl for CharSet {
    open spec fn obeys_bitand_spec() -> bool {
        true
    }

    open spec fn bitand_req(self, rhs: CharSet) -> bool {
        true
    }

    open spec fn bitand_spec(self, rhs: CharSet) -> CharSet {
        self.spec_intersection(rhs)
    }
}

impl core::ops::BitAnd for CharSet {
    type Output = CharSet;

    fn bitand(self, rhs: CharSet) -> (r: CharSet)
        ensures
            r@ == self@.intersect(rhs@),
    {
        proof {
            CharSet::lemma_ops_view(self, rhs);
        }
        self.words_op(rhs, 1)
    }
}

impl core::ops::BitAndAssign for CharSet {
    fn bitand_assign(&mut self, rhs: CharSet)
        ensures
            final(self)@ == old(self)@.intersect(rhs@),
    {
        proof {
            CharSet::lemma_ops_view(*self, rhs);
        }
        *self = self.words_op(rhs, 1);
    }
}

impl vstd::std_specs::ops::BitXorSpecImpl for CharSet {
    open spec fn obeys_bitxor_spec() -> bool {
        true
    }

    open spec fn bitxor_req(self, rhs: CharSet) -> bool {
        true
    }

    open spec fn bitxor_spec(self, rhs: CharSet) -> CharSet {
        self.spec_sym_diff(rhs)
    }
}

impl core::ops::BitXor for CharSet {
    type Output = CharSet;

    fn bitxor(self, rhs: CharSet) -> (r: CharSet)
        ensures
            r@ == self@.union(rhs@).difference(self@.intersect(rhs@)),
    {
        proof {
            CharSet::lemma_ops_view(self, rhs);
        }
        self.words_op(rhs, 2)
    }
}

impl core::ops::BitXorAssign for CharSet {
    fn bitxor_assign(&mut self, rhs: CharSet)
        ensures
            final(self)@ == old(self)@.union(rhs@).difference(old(self)@.intersect(rhs@)),
    {
        proof {
            CharSet::lemma_ops_view(*self, rhs);
        }
        *self = self.words_op(rhs, 2);
    }
}

impl vstd::std_specs::ops::SubSpecImpl for CharSet {
    open spec fn obeys_sub_spec() -> bool {
        true
    }

    open spec fn sub_req(self, rhs: CharSet) -> bool {
        true
    }

    open spec fn sub_spec(self, rhs: CharSet) -> CharSet {
        self.spec_difference(rhs)
    }
}

impl core::ops::Sub for CharSet {
    type Output = CharSet;

    fn sub(self, rhs: CharSet) -> (r: CharSet)
        ensures
            r@ == self@.difference(rhs@),
    {
        proof {
            CharSet::lemma_ops_view(self, rhs);
        }
        self.words_op(rhs, 3)
    }
}

impl core::ops::SubAssign for CharSet {
    fn sub_assign(&mut self, rhs: CharSet)
        ensures
            final(self)@ == old(self)@.difference(rhs@),
    {
        proof {
            CharSet::lemma_ops_view(*self, rhs);
        }
        *self = self.words_op(rhs, 3);
    }
}

impl vstd::std_specs::ops::NotSpecImpl for CharSet {
    open spec fn obeys_not_spec() -> bool {
        true
    }

    open spec fn not_req(self) -> bool {
        true
    }

    open spec fn not_spec(self) -> CharSet {
        CharSet::spec_all().spec_difference(self)
    }
}

impl core::ops::Not for CharSet {
    type Output = CharSet;

    /// The complement within the variation-sequence universe.
    fn not(self) -> (r: CharSet)
        ensures
            r@ == universe().difference(self@),
    {
        proof {
            CharSet::lemma_ops_view(CharSet::spec_all(), self);
            CharSet::lemma_all_none_view();
        }
        let all = CharSet::all();
        all.words_op(self, 3)
    }
}

impl Default for CharSet {
    fn default() -> (r: CharSet)
        ensures
            r@ == Set::<char>::empty(),
    {
        CharSet::none()
    }
}

/// Return whether `ch` is an eligible variation-sequence base character.
///
/// This checks for a base code point in the crate's pinned
/// `emoji-variation-sequences.txt` data, not for a complete base-plus-selector
/// sequence.
pub fn is_variation_sequence_character(ch: char) -> (r: bool)
    ensures
        r == has_vs(ch),
{
    unicode::has_variation_sequence(ch)
}

/// Named subsets of the variation-sequence universe.
#[derive(Debug, Clone, Copy, PartialEq, Eq, Structural)]
pub enum NamedSet {
    /// ASCII bases (U+0000-U+007F).
    Ascii,
    /// Bases whose Unicode default side is text.
    TextDefaults,
    /// Bases whose Unicode default side is emoji.
    EmojiDefaults,
    /// ©️ (U+00A9), ®️ (U+00AE), ™️ (U+2122).
    RightsMarks,
    /// Arrow characters used by the formatter policy docs.
    Arrows,
    /// ♠️ (U+2660), ♣️ (U+2663), ♥️ (U+2665), ♦️ (U+2666).
    CardSuits,
    /// RGI emoji keycap bases (`#`, `*`, `0`-`9`).
    KeycapEmojis,
}

/// Whether a table entry (base `ch`, default side emoji when `emoji_default`)
/// belongs to the named set `id`.
pub open spec fn named_entry(id: NamedSet, ch: char, emoji_default: bool) -> bool {
    let v = ch as u32;
    match id {
        NamedSet::Ascii => v < 0x80,
        NamedSet::TextDefaults => !emoji_default,
        NamedSet::EmojiDefaults => emoji_default,
        NamedSet::RightsMarks => v == 0xA9 || v == 0xAE || v == 0x2122,
        NamedSet::Arrows => v == 0x2194 || v == 0x2195 || v == 0x2196 || v == 0x2197 || v == 0x2198
            || v == 0x2199 || v == 0x21A9 || v == 0x21AA || v == 0x27A1 || v == 0x2934 || v == 0x2935
            || v == 0x2B05 || v == 0x2B06 || v == 0x2B07,
        NamedSet::CardSuits => v == 0x2660 || v == 0x2663 || v == 0x2665 || v == 0x2666,
        NamedSet::KeycapEmojis => v == 0x23 || v == 0x2A || (0x30 <= v <= 0x39),
    }
}

/// The members of the named set `id`.
pub open spec fn named_members(id: NamedSet) -> Set<char> {
    Set::new(|c: char| has_vs(c) && named_entry(id, c, unicode::emoji_default(c)))
}

/// Whether a table entry belongs to the named set `id`.
pub fn named_entry_matches(id: NamedSet, ch: char, emoji_default: bool) -> (r: bool)
    ensures
        r == named_entry(id, ch, emoji_default),
{
    let v = ch as u32;
    match id {
        NamedSet::Ascii => v < 0x80,
        NamedSet::TextDefaults => !emoji_default,
        NamedSet::EmojiDefaults => emoji_default,
        NamedSet::RightsMarks => v == 0xA9 || v == 0xAE || v == 0x2122,
        NamedSet::Arrows => v == 0x2194 || v == 0x2195 || v == 0x2196 || v == 0x2197 || v == 0x2198
            || v == 0x2199 || v == 0x21A9 || v == 0x21AA || v == 0x27A1 || v == 0x2934 || v == 0x2935
            || v == 0x2B05 || v == 0x2B06 || v == 0x2B07,
        NamedSet::CardSuits => v == 0x2660 || v == 0x2663 || v == 0x2665 || v == 0x2666,
        NamedSet::KeycapEmojis => v == 0x23 || v == 0x2A || (0x30 <= v && v <= 0x39),
    }
}

impl CharSet {
    /// The set of table entries that belong to the named set `id`.
    pub fn named(id: NamedSet) -> (r: CharSet)
        ensures
            r@ == named_members(id),
    {
        let mut set = CharSet::none();
        let mut index: usize = 0;
        while index < VARIATION_ENTRY_COUNT
            invariant
                index <= VARIATION_ENTRY_COUNT,
                forall|k: int|
                    #[trigger] set.has_index(k) == (0 <= k < index && named_entry(
                        id,
                        VARIATION_ENTRIES@[k].0,
                        VARIATION_ENTRIES@[k].1,
                    )),
            decreases VARIATION_ENTRY_COUNT - index,
        {
            let (ch, emoji_default) = VARIATION_ENTRIES[index];
            if named_entry_matches(id, ch, emoji_default) {
                set.insert_index(index);
            }
            index = index + 1;
        }
        proof {
            assert forall|c: char| #[trigger] set@.contains(c) == named_members(id).contains(c) by {
                unicode::lemma_vs_index(c);
            }
            assert(set@ =~= named_members(id));
        }
        set
    }

    /// Whether no table entry is a member.
    pub fn is_empty(&self) -> (r: bool)
        ensures
            r == (forall|k: int| 0 <= k < VARIATION_ENTRY_COUNT ==> !#[trigger] self.has_index(k)),
    {
        let mut index: usize = 0;
        while index < VARIATION_ENTRY_COUNT
            invariant
                index <= VARIATION_ENTRY_COUNT,
                forall|k: int| 0 <= k < index ==> !#[trigger] self.has_index(k),
            decreases VARIATION_ENTRY_COUNT - index,
        {
            if self.contains_index(index) {
                return false;
            }
            index = index + 1;
        }
        true
    }

    /// Whether every table entry is a member.
    pub fn is_full(&self) -> (r: bool)
        ensures
            r == (forall|k: int| 0 <= k < VARIATION_ENTRY_COUNT ==> #[trigger] self.has_index(k)),
    {
        let mut index: usize = 0;
        while index < VARIATION_ENTRY_COUNT
            invariant
                index <= VARIATION_ENTRY_COUNT,
                forall|k: int| 0 <= k < index ==> #[trigger] self.has_index(k),
            decreases VARIATION_ENTRY_COUNT - index,
        {
            if !self.contains_index(index) {
                return false;
            }
            index = index + 1;
        }
        true
    }

    /// Appends `prefix(HEX)` for every member in table order, each preceded by
    /// a comma unless it is the first item written; returns whether anything
    /// has been written so far.
    pub(crate) fn push_members(&self, out: &mut String, prefix: char, first: bool) -> (r: bool)
        ensures
            final(out)@ == old(out)@ + join_items(member_items(*self, prefix, VARIATION_ENTRY_COUNT as int), first),
            r == (first && member_items(*self, prefix, VARIATION_ENTRY_COUNT as int).len() == 0),
    {
        let ghost start = out@;
        let mut first = first;
        let ghost first0 = first;
        let mut index: usize = 0;
        while index < VARIATION_ENTRY_COUNT
            invariant
                index <= VARIATION_ENTRY_COUNT,
                out@ == start + join_items(member_items(*self, prefix, index as int), first0),
                first == (first0 && member_items(*self, prefix, index as int).len() == 0),
            decreases VARIATION_ENTRY_COUNT - index,
        {
            if self.contains_index(index) {
                let ghost before = out@;
                if !first {
                    push_char(out, ',');
                }
                push_char(out, prefix);
                push_char(out, '(');
                push_hex4(out, VARIATION_ENTRIES[index].0 as u32);
                push_char(out, ')');
                first = false;
                proof {
                    lemma_join_push(member_items(*self, prefix, index as int), code_item(prefix, VARIATION_ENTRIES@[index as int].0), first0);
                }
                assert(out@ =~= start + join_items(member_items(*self, prefix, index as int + 1), first0));
            }
            index = index + 1;
        }
        first
    }

    /// The display form: `none`, `all`, or the members' `u(HEX)` items in
    /// table order separated by commas.
    pub fn to_string(&self) -> (r: String)
        ensures
            r@ == display_text(*self),
    {
        if self.is_empty() {
            proof { reveal_strlit("none"); }
            String::from_str("none")
        } else if self.is_full() {
            proof { reveal_strlit("all"); }
            String::from_str("all")
        } else {
            let mut out = String::new();
            self.push_members(&mut out, 'u', true);
            assert(out@ =~= join_items(member_items(*self, 'u', VARIATION_ENTRY_COUNT as int), true));
            out
        }
    }
}

/// `prefix(HEX)` for the code point of `ch`.
pub open spec fn code_item(prefix: char, ch: char) -> Seq<char> {
    seq![prefix, '('] + hex4(ch as u32 as nat) + seq![')']
}

/// The `prefix(HEX)` items of the members among the first `n` table entries.
pub open spec fn member_items(s: CharSet, prefix: char, n: int) -> Seq<Seq<char>>
    decreases n,
{
    if n <= 0 {
        Seq::empty()
    } else if s.has_index(n - 1) {
        member_items(s, prefix, n - 1).push(code_item(prefix, VARIATION_ENTRIES@[n - 1].0))
    } else {
        member_items(s, prefix, n - 1)
    }
}

/// Items joined by commas; a leading comma is written when `first` is false
/// and there is at least one item.
pub open spec fn join_items(items: Seq<Seq<char>>, first: bool) -> Seq<char>
    decreases items.len(),
{
    if items.len() == 0 {
        Seq::empty()
    } else {
        let prev = items.drop_last();
        join_items(prev, first) + (if first && prev.len() == 0 { Seq::empty() } else { seq![','] })
            + items.last()
    }
}

/// Joining one more item appends a separator (unless it is the very first
/// item) and the item.
pub proof fn lemma_join_push(items: Seq<Seq<char>>, item: Seq<char>, first: bool)
    ensures
        join_items(items.push(item), first) == join_items(items, first) + (if first && items.len() == 0 {
            Seq::empty()
        } else {
            seq![',']
        }) + item,
{
    assert(items.push(item).drop_last() =~= items);
}

/// The display form of a set.
pub open spec fn display_text(s: CharSet) -> Seq<char> {
    if forall|k: int| 0 <= k < VARIATION_ENTRY_COUNT ==> !#[trigger] s.has_index(k) {
        "none"@
    } else if forall|k: int| 0 <= k < VARIATION_ENTRY_COUNT ==> #[trigger] s.has_index(k) {
        "all"@
    } else {
        join_items(member_items(s, 'u', VARIATION_ENTRY_COUNT as int), true)
    }
}

/// Bits per membership word.
pub const WORD_BITS: usize = 64;

/// Membership words per set.
pub const CHARSET_WORDS: usize = 6;

impl CharSet {
    /// The membership words of the set.
    pub closed spec fn words(self) -> [u64; 6] {
        self.bits
    }

    /// The membership words of the set: bit `k % 64` of word `k / 64` is set
    /// exactly when table entry `k` is a member.
    pub fn bits(&self) -> (r: [u64; 6])
        ensures
            r == self.words(),
    {
        self.bits
    }
}

/// The membership words of the full set.
pub fn all_bits() -> (r: [u64; 6])
    ensures
        r == CharSet::spec_all().words(),
{
    CharSet::all().bits
}

/// The set whose membership words are `words`.
pub closed spec fn from_words(words: [u64; 6]) -> CharSet {
    CharSet { bits: words }
}

/// The membership words of the named set `id`.
pub fn named_bits(id: NamedSet) -> (r: [u64; 6])
    ensures
        from_words(r)@ == named_members(id),
{
    CharSet::named(id).bits
}

/// ASCII variation-sequence characters (U+0000-U+007F).
pub fn ascii() -> (r: CharSet)
    ensures
        r@ == named_members(NamedSet::Ascii),
{
    CharSet::named(NamedSet::Ascii)
}

/// Variation-sequence characters whose Unicode default side is text.
pub fn text_defaults() -> (r: CharSet)
    ensures
        r@ == named_members(NamedSet::TextDefaults),
{
    CharSet::named(NamedSet::TextDefaults)
}

/// Variation-sequence characters whose Unicode default side is emoji.
pub fn emoji_defaults() -> (r: CharSet)
    ensures
        r@ == named_members(NamedSet::EmojiDefaults),
{
    CharSet::named(NamedSet::EmojiDefaults)
}

/// U+00A9, U+00AE and U+2122.
pub fn rights_marks() -> (r: CharSet)
    ensures
        r@ == named_members(NamedSet::RightsMarks),
{
    CharSet::named(NamedSet::RightsMarks)
}

/// Arrow characters with variation sequences.
pub fn arrows() -> (r: CharSet)
    ensures
        r@ == named_members(NamedSet::Arrows),
{
    CharSet::named(NamedSet::Arrows)
}

/// U+2660, U+2663, U+2665 and U+2666.
pub fn card_suits() -> (r: CharSet)
    ensures
        r@ == named_members(NamedSet::CardSuits),
{
    CharSet::named(NamedSet::CardSuits)
}

/// Two characters with the same code point are the same character.
proof fn lemma_same_char(c: char, d: char)
    requires
        c as u32 == d as u32,
    ensures
        c == d,
{
    vstd::utf8::char_u32_cast(c, c as u32);
    vstd::utf8::char_u32_cast(d, d as u32);
}

/// The arrows named set holds exactly the fourteen arrows the policy docs
/// list: U+2194..U+2199, U+21A9, U+21AA, U+27A1, U+2934, U+2935, U+2B05,
/// U+2B06 and U+2B07.
pub proof fn lemma_arrows_members()
    ensures
        named_members(NamedSet::Arrows) == set![
            '\u{2194}', '\u{2195}', '\u{2196}', '\u{2197}', '\u{2198}', '\u{2199}', '\u{21A9}',
            '\u{21AA}', '\u{27A1}', '\u{2934}', '\u{2935}', '\u{2B05}', '\u{2B06}', '\u{2B07}',
        ],
{
    let listed = set![
        '\u{2194}', '\u{2195}', '\u{2196}', '\u{2197}', '\u{2198}', '\u{2199}', '\u{21A9}',
        '\u{21AA}', '\u{27A1}', '\u{2934}', '\u{2935}', '\u{2B05}', '\u{2B06}', '\u{2B07}',
    ];
    unicode::lemma_listed_at('\u{2194}', 18);
    unicode::lemma_listed_at('\u{2195}', 19);
    unicode::lemma_listed_at('\u{2196}', 20);
    unicode::lemma_listed_at('\u{2197}', 21);
    unicode::lemma_listed_at('\u{2198}', 22);
    unicode::lemma_listed_at('\u{2199}', 23);
    unicode::lemma_listed_at('\u{21A9}', 24);
    unicode::lemma_listed_at('\u{21AA}', 25);
    unicode::lemma_listed_at('\u{27A1}', 162);
    unicode::lemma_listed_at('\u{2934}', 165);
    unicode::lemma_listed_at('\u{2935}', 166);
    unicode::lemma_listed_at('\u{2B05}', 167);
    unicode::lemma_listed_at('\u{2B06}', 168);
    unicode::lemma_listed_at('\u{2B07}', 169);
    assert forall|c: char| #[trigger] named_members(NamedSet::Arrows).contains(c) implies listed.contains(
        c,
    ) by {
        if c as u32 == 0x2194 {
            lemma_same_char(c, '\u{2194}');
        } else if c as u32 == 0x2195 {
            lemma_same_char(c, '\u{2195}');
        } else if c as u32 == 0x2196 {
            lemma_same_char(c, '\u{2196}');
        } else if c as u32 == 0x2197 {
            lemma_same_char(c, '\u{2197}');
        } else if c as u32 == 0x2198 {
            lemma_same_char(c, '\u{2198}');
        } else if c as u32 == 0x2199 {
            lemma_same_char(c, '\u{2199}');
        } else if c as u32 == 0x21A9 {
            lemma_same_char(c, '\u{21A9}');
        } else if c as u32 == 0x21AA {
            lemma_same_char(c, '\u{21AA}');
        } else if c as u32 == 0x27A1 {
            lemma_same_char(c, '\u{27A1}');
        } else if c as u32 == 0x2934 {
            lemma_same_char(c, '\u{2934}');
        } else if c as u32 == 0x2935 {
            lemma_same_char(c, '\u{2935}');
        } else if c as u32 == 0x2B05 {
            lemma_same_char(c, '\u{2B05}');
        } else if c as u32 == 0x2B06 {
            lemma_same_char(c, '\u{2B06}');
        } else {
            lemma_same_char(c, '\u{2B07}');
        }
    }
    assert(named_members(NamedSet::Arrows) =~= listed);
}

/// The rights-marks named set holds exactly U+00A9, U+00AE and U+2122.
pub proof fn lemma_rights_marks_members()
    ensures
        named_members(NamedSet::RightsMarks) == set![
            '\u{00A9}', '\u{00AE}', '\u{2122}',
        ],
{
    let listed = set![
        '\u{00A9}', '\u{00AE}', '\u{2122}',
    ];
    unicode::lemma_listed_at('\u{00A9}', 12);
    unicode::lemma_listed_at('\u{00AE}', 13);
    unicode::lemma_listed_at('\u{2122}', 16);
    assert forall|c: char| #[trigger] named_members(NamedSet::RightsMarks).contains(c) implies listed.contains(
        c,
    ) by {
        if c as u32 == 0xA9 {
            lemma_same_char(c, '\u{00A9}');
        } else if c as u32 == 0xAE {
            lemma_same_char(c, '\u{00AE}');
        } else {
            lemma_same_char(c, '\u{2122}');
        }
    }
    assert(named_members(NamedSet::RightsMarks) =~= listed);
}

/// The card-suits named set holds exactly U+2660, U+2663, U+2665 and U+2666.
pub proof fn lemma_card_suits_members()
    ensures
        named_members(NamedSet::CardSuits) == set![
            '\u{2660}', '\u{2663}', '\u{2665}', '\u{2666}',
        ],
{
    let listed = set![
        '\u{2660}', '\u{2663}', '\u{2665}', '\u{2666}',
    ];
    unicode::lemma_listed_at('\u{2660}', 86);
    unicode::lemma_listed_at('\u{2663}', 87);
    unicode::lemma_listed_at('\u{2665}', 88);
    unicode::lemma_listed_at('\u{2666}', 89);
    assert forall|c: char| #[trigger] named_members(NamedSet::CardSuits).contains(c) implies listed.contains(
        c,
    ) by {
        if c as u32 == 0x2660 {
            lemma_same_char(c, '\u{2660}');
        } else if c as u32 == 0x2663 {
            lemma_same_char(c, '\u{2663}');
        } else if c as u32 == 0x2665 {
            lemma_same_char(c, '\u{2665}');
        } else {
            lemma_same_char(c, '\u{2666}');
        }
    }
    assert(named_members(NamedSet::CardSuits) =~= listed);
}

/// The keycap-emojis named set holds exactly `#`, `*` and the digits `0`-`9`.
pub proof fn lemma_keycap_emojis_members()
    ensures
        named_members(NamedSet::KeycapEmojis) == set![
            '\u{0023}', '\u{002A}', '\u{0030}', '\u{0031}', '\u{0032}', '\u{0033}', '\u{0034}',
            '\u{0035}', '\u{0036}', '\u{0037}', '\u{0038}', '\u{0039}',
        ],
{
    let listed = set![
        '\u{0023}', '\u{002A}', '\u{0030}', '\u{0031}', '\u{0032}', '\u{0033}', '\u{0034}',
        '\u{0035}', '\u{0036}', '\u{0037}', '\u{0038}', '\u{0039}',
    ];
    unicode::lemma_listed_at('\u{0023}', 0);
    unicode::lemma_listed_at('\u{002A}', 1);
    unicode::lemma_listed_at('\u{0030}', 2);
    unicode::lemma_listed_at('\u{0031}', 3);
    unicode::lemma_listed_at('\u{0032}', 4);
    unicode::lemma_listed_at('\u{0033}', 5);
    unicode::lemma_listed_at('\u{0034}', 6);
    unicode::lemma_listed_at('\u{0035}', 7);
    unicode::lemma_listed_at('\u{0036}', 8);
    unicode::lemma_listed_at('\u{0037}', 9);
    unicode::lemma_listed_at('\u{0038}', 10);
    unicode::lemma_listed_at('\u{0039}', 11);
    assert forall|c: char| #[trigger] named_members(NamedSet::KeycapEmojis).contains(c) implies listed.contains(
        c,
    ) by {
        if c as u32 == 0x23 {
            lemma_same_char(c, '\u{0023}');
        } else if c as u32 == 0x2A {
            lemma_same_char(c, '\u{002A}');
        } else if c as u32 == 0x30 {
            lemma_same_char(c, '\u{0030}');
        } else if c as u32 == 0x31 {
            lemma_same_char(c, '\u{0031}');
        } else if c as u32 == 0x32 {
            lemma_same_char(c, '\u{0032}');
        } else if c as u32 == 0x33 {
            lemma_same_char(c, '\u{0033}');
        } else if c as u32 == 0x34 {
            lemma_same_char(c, '\u{0034}');
        } else if c as u32 == 0x35 {
            lemma_same_char(c, '\u{0035}');
        } else if c as u32 == 0x36 {
            lemma_same_char(c, '\u{0036}');
        } else if c as u32 == 0x37 {
            lemma_same_char(c, '\u{0037}');
        } else if c as u32 == 0x38 {
            lemma_same_char(c, '\u{0038}');
        } else {
            lemma_same_char(c, '\u{0039}');
        }
    }
    assert(named_members(NamedSet::KeycapEmojis) =~= listed);
}

} // verus!
