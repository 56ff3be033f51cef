//! Unicode emoji metadata used by scanning and canonicalization.
//!
//! The tables below are the pinned Unicode data the formatter relies on:
//! the bases listed in `emoji-variation-sequences.txt` (each with both a text
//! and an emoji presentation sequence) together with whether the base has the
//! `Emoji_Presentation` property, and the code point ranges with the `Emoji`
//! property. Emoji modifiers, regional indicators and tag characters are
//! contiguous ranges and are tested directly.

use vstd::prelude::*;

verus! {

/// Text presentation selector (Unicode variation selector 15).
pub const TEXT_PRESENTATION_SELECTOR: char = '\u{FE0E}';

/// Emoji presentation selector (Unicode variation selector 16).
pub const EMOJI_PRESENTATION_SELECTOR: char = '\u{FE0F}';

/// Combining enclosing keycap.
pub const COMBINING_ENCLOSING_KEYCAP: char = '\u{20E3}';

/// Zero-width joiner.
pub const ZWJ: char = '\u{200D}';

/// The number of variation sequence entries.
pub const VARIATION_ENTRY_COUNT: usize = 371;

/// Sorted table of the characters listed in `emoji-variation-sequences.txt`,
/// each paired with whether it has the `Emoji_Presentation` property.
pub const VARIATION_ENTRIES: [(char, bool); 371] = [
    ('\u{0023}', false),
    ('\u{002A}', false),
    ('\u{0030}', false),
    ('\u{0031}', false),
    ('\u{0032}', false),
    ('\u{0033}', false),
    ('\u{0034}', false),
    ('\u{0035}', false),
    ('\u{0036}', false),
    ('\u{0037}', false),
    ('\u{0038}', false),
    ('\u{0039}', false),
    ('\u{00A9}', false),
    ('\u{00AE}', false),
    ('\u{203C}', false),
    ('\u{2049}', false),
    ('\u{2122}', false),
    ('\u{2139}', false),
    ('\u{2194}', false),
    ('\u{2195}', false),
    ('\u{2196}', false),
    ('\u{2197}', false),
    ('\u{2198}', false),
    ('\u{2199}', false),
    ('\u{21A9}', false),
    ('\u{21AA}', false),
    ('\u{231A}', true),
    ('\u{231B}', true),
    ('\u{2328}', false),
    ('\u{23CF}', false),
    ('\u{23E9}', true),
    ('\u{23EA}', true),
    ('\u{23ED}', false),
    ('\u{23EE}', false),
    ('\u{23EF}', false),
    ('\u{23F1}', false),
    ('\u{23F2}', false),
    ('\u{23F3}', true),
    ('\u{23F8}', false),
    ('\u{23F9}', false),
    ('\u{23FA}', false),
    ('\u{24C2}', false),
    ('\u{25AA}', false),
    ('\u{25AB}', false),
    ('\u{25B6}', false),
    ('\u{25C0}', false),
    ('\u{25FB}', false),
    ('\u{25FC}', false),
    ('\u{25FD}', true),
    ('\u{25FE}', true),
    ('\u{2600}', false),
    ('\u{2601}', false),
    ('\u{2602}', false),
    ('\u{2603}', false),
    ('\u{2604}', false),
    ('\u{260E}', false),
    ('\u{2611}', false),
    ('\u{2614}', true),
    ('\u{2615}', true),
    ('\u{2618}', false),
    ('\u{261D}', false),
    ('\u{2620}', false),
    ('\u{2622}', false),
    ('\u{2623}', false),
    ('\u{2626}', false),
    ('\u{262A}', false),
    ('\u{262E}', false),
    ('\u{262F}', false),
    ('\u{2638}', false),
    ('\u{2639}', false),
    ('\u{263A}', false),
    ('\u{2640}', false),
    ('\u{2642}', false),
    ('\u{2648}', true),
    ('\u{2649}', true),
    ('\u{264A}', true),
    ('\u{264B}', true),
    ('\u{264C}', true),
    ('\u{264D}', true),
    ('\u{264E}', true),
    ('\u{264F}', true),
    ('\u{2650}', true),
    ('\u{2651}', true),
    ('\u{2652}', true),
    ('\u{2653}', true),
    ('\u{265F}', false),
    ('\u{2660}', false),
    ('\u{2663}', false),
    ('\u{2665}', false),
    ('\u{2666}', false),
    ('\u{2668}', false),
    ('\u{267B}', false),
    ('\u{267E}', false),
    ('\u{267F}', true),
    ('\u{2692}', false),
    ('\u{2693}', true),
    ('\u{2694}', false),
    ('\u{2695}', false),
    ('\u{2696}', false),
    ('\u{2697}', false),
    ('\u{2699}', false),
    ('\u{269B}', false),
    ('\u{269C}', false),
    ('\u{26A0}', false),
    ('\u{26A1}', true),
    ('\u{26A7}', false),
    ('\u{26AA}', true),
    ('\u{26AB}', true),
    ('\u{26B0}', false),
    ('\u{26B1}', false),
    ('\u{26BD}', true),
    ('\u{26BE}', true),
    ('\u{26C4}', true),
    ('\u{26C5}', true),
    ('\u{26C8}', false),
    ('\u{26CF}', false),
    ('\u{26D1}', false),
    ('\u{26D3}', false),
    ('\u{26D4}', true),
    ('\u{26E9}', false),
    ('\u{26EA}', true),
    ('\u{26F0}', false),
    ('\u{26F1}', false),
    ('\u{26F2}', true),
    ('\u{26F3}', true),
    ('\u{26F4}', false),
    ('\u{26F5}', true),
    ('\u{26F7}', false),
    ('\u{26F8}', false),
    ('\u{26F9}', false),
    ('\u{26FA}', true),
    ('\u{26FD}', true),
    ('\u{2702}', false),
    ('\u{2705}', true),
    ('\u{2708}', false),
    ('\u{2709}', false),
    ('\u{270A}', true),
    ('\u{270B}', true),
    ('\u{270C}', false),
    ('\u{270D}', false),
    ('\u{270F}', false),
    ('\u{2712}', false),
    ('\u{2714}', false),
    ('\u{2716}', false),
    ('\u{271D}', false),
    ('\u{2721}', false),
    ('\u{2728}', true),
    ('\u{2733}', false),
    ('\u{2734}', false),
    ('\u{2744}', false),
    ('\u{2747}', false),
    ('\u{274C}', true),
    ('\u{274E}', true),
    ('\u{2753}', true),
    ('\u{2754}', true),
    ('\u{2755}', true),
    ('\u{2757}', true),
    ('\u{2763}', false),
    ('\u{2764}', false),
    ('\u{2795}', true),
    ('\u{2796}', true),
    ('\u{2797}', true),
    ('\u{27A1}', false),
    ('\u{27B0}', true),
    ('\u{27BF}', true),
    ('\u{2934}', false),
    ('\u{2935}', false),
    ('\u{2B05}', false),
    ('\u{2B06}', false),
    ('\u{2B07}', false),
    ('\u{2B1B}', true),
    ('\u{2B1C}', true),
    ('\u{2B50}', true),
    ('\u{2B55}', true),
    ('\u{3030}', false),
    ('\u{303D}', false),
    ('\u{3297}', false),
    ('\u{3299}', false),
    ('\u{1F004}', true),
    ('\u{1F170}', false),
    ('\u{1F171}', false),
    ('\u{1F17E}', false),
    ('\u{1F17F}', false),
    ('\u{1F202}', false),
    ('\u{1F21A}', true),
    ('\u{1F22F}', true),
    ('\u{1F237}', false),
    ('\u{1F30D}', true),
    ('\u{1F30E}', true),
    ('\u{1F30F}', true),
    ('\u{1F315}', true),
    ('\u{1F31C}', true),
    ('\u{1F321}', false),
    ('\u{1F324}', false),
    ('\u{1F325}', false),
    ('\u{1F326}', false),
    ('\u{1F327}', false),
    ('\u{1F328}', false),
    ('\u{1F329}', false),
    ('\u{1F32A}', false),
    ('\u{1F32B}', false),
    ('\u{1F32C}', false),
    ('\u{1F336}', false),
    ('\u{1F378}', true),
    ('\u{1F37D}', false),
    ('\u{1F393}', true),
    ('\u{1F396}', false),
    ('\u{1F397}', false),
    ('\u{1F399}', false),
    ('\u{1F39A}', false),
    ('\u{1F39B}', false),
    ('\u{1F39E}', false),
    ('\u{1F39F}', false),
    ('\u{1F3A7}', true),
    ('\u{1F3AC}', true),
    ('\u{1F3AD}', true),
    ('\u{1F3AE}', true),
    ('\u{1F3C2}', true),
    ('\u{1F3C4}', true),
    ('\u{1F3C6}', true),
    ('\u{1F3CA}', true),
    ('\u{1F3CB}', false),
    ('\u{1F3CC}', false),
    ('\u{1F3CD}', false),
    ('\u{1F3CE}', false),
    ('\u{1F3D4}', false),
    ('\u{1F3D5}', false),
    ('\u{1F3D6}', false),
    ('\u{1F3D7}', false),
    ('\u{1F3D8}', false),
    ('\u{1F3D9}', false),
    ('\u{1F3DA}', false),
    ('\u{1F3DB}', false),
    ('\u{1F3DC}', false),
    ('\u{1F3DD}', false),
    ('\u{1F3DE}', false),
    ('\u{1F3DF}', false),
    ('\u{1F3E0}', true),
    ('\u{1F3ED}', true),
    ('\u{1F3F3}', false),
    ('\u{1F3F5}', false),
    ('\u{1F3F7}', false),
    ('\u{1F408}', true),
    ('\u{1F415}', true),
    ('\u{1F41F}', true),
    ('\u{1F426}', true),
    ('\u{1F43F}', false),
    ('\u{1F441}', false),
    ('\u{1F442}', true),
    ('\u{1F446}', true),
    ('\u{1F447}', true),
    ('\u{1F448}', true),
    ('\u{1F449}', true),
    ('\u{1F44D}', true),
    ('\u{1F44E}', true),
    ('\u{1F453}', true),
    ('\u{1F46A}', true),
    ('\u{1F47D}', true),
    ('\u{1F4A3}', true),
    ('\u{1F4B0}', true),
    ('\u{1F4B3}', true),
    ('\u{1F4B9}', true),
    ('\u{1F4BB}', true),
    ('\u{1F4BF}', true),
    ('\u{1F4C8}', true),
    ('\u{1F4C9}', true),
    ('\u{1F4CA}', true),
    ('\u{1F4CB}', true),
    ('\u{1F4DA}', true),
    ('\u{1F4DF}', true),
    ('\u{1F4E4}', true),
    ('\u{1F4E5}', true),
    ('\u{1F4E6}', true),
    ('\u{1F4EA}', true),
    ('\u{1F4EB}', true),
    ('\u{1F4EC}', true),
    ('\u{1F4ED}', true),
    ('\u{1F4F7}', true),
    ('\u{1F4F9}', true),
    ('\u{1F4FA}', true),
    ('\u{1F4FB}', true),
    ('\u{1F4FD}', false),
    ('\u{1F508}', true),
    ('\u{1F50D}', true),
    ('\u{1F512}', true),
    ('\u{1F513}', true),
    ('\u{1F549}', false),
    ('\u{1F54A}', false),
    ('\u{1F550}', true),
    ('\u{1F551}', true),
    ('\u{1F552}', true),
    ('\u{1F553}', true),
    ('\u{1F554}', true),
    ('\u{1F555}', true),
    ('\u{1F556}', true),
    ('\u{1F557}', true),
    ('\u{1F558}', true),
    ('\u{1F559}', true),
    ('\u{1F55A}', true),
    ('\u{1F55B}', true),
    ('\u{1F55C}', true),
    ('\u{1F55D}', true),
    ('\u{1F55E}', true),
    ('\u{1F55F}', true),
    ('\u{1F560}', true),
    ('\u{1F561}', true),
    ('\u{1F562}', true),
    ('\u{1F563}', true),
    ('\u{1F564}', true),
    ('\u{1F565}', true),
    ('\u{1F566}', true),
    ('\u{1F567}', true),
    ('\u{1F56F}', false),
    ('\u{1F570}', false),
    ('\u{1F573}', false),
    ('\u{1F574}', false),
    ('\u{1F575}', false),
    ('\u{1F576}', false),
    ('\u{1F577}', false),
    ('\u{1F578}', false),
    ('\u{1F579}', false),
    ('\u{1F587}', false),
    ('\u{1F58A}', false),
    ('\u{1F58B}', false),
    ('\u{1F58C}', false),
    ('\u{1F58D}', false),
    ('\u{1F590}', false),
    ('\u{1F5A5}', false),
    ('\u{1F5A8}', false),
    ('\u{1F5B1}', false),
    ('\u{1F5B2}', false),
    ('\u{1F5BC}', false),
    ('\u{1F5C2}', false),
    ('\u{1F5C3}', false),
    ('\u{1F5C4}', false),
    ('\u{1F5D1}', false),
    ('\u{1F5D2}', false),
    ('\u{1F5D3}', false),
    ('\u{1F5DC}', false),
    ('\u{1F5DD}', false),
    ('\u{1F5DE}', false),
    ('\u{1F5E1}', false),
    ('\u{1F5E3}', false),
    ('\u{1F5E8}', false),
    ('\u{1F5EF}', false),
    ('\u{1F5F3}', false),
    ('\u{1F5FA}', false),
    ('\u{1F610}', true),
    ('\u{1F687}', true),
    ('\u{1F68D}', true),
    ('\u{1F691}', true),
    ('\u{1F694}', true),
    ('\u{1F698}', true),
    ('\u{1F6AD}', true),
    ('\u{1F6B2}', true),
    ('\u{1F6B9}', true),
    ('\u{1F6BA}', true),
    ('\u{1F6BC}', true),
    ('\u{1F6CB}', false),
    ('\u{1F6CD}', false),
    ('\u{1F6CE}', false),
    ('\u{1F6CF}', false),
    ('\u{1F6E0}', false),
    ('\u{1F6E1}', false),
    ('\u{1F6E2}', false),
    ('\u{1F6E3}', false),
    ('\u{1F6E4}', false),
    ('\u{1F6E5}', false),
    ('\u{1F6E9}', false),
    ('\u{1F6F0}', false),
    ('\u{1F6F3}', false)
];

/// Sorted, non-overlapping ranges of code points with the `Emoji` property.
pub const EMOJI_RANGES: [(u32, u32); 151] = [
    (0x0023, 0x0023),
    (0x002A, 0x002A),
    (0x0030, 0x0039),
    (0x00A9, 0x00A9),
    (0x00AE, 0x00AE),
    (0x203C, 0x203C),
    (0x2049, 0x2049),
    (0x2122, 0x2122),
    (0x2139, 0x2139),
    (0x2194, 0x2199),
    (0x21A9, 0x21AA),
    (0x231A, 0x231B),
    (0x2328, 0x2328),
    (0x23CF, 0x23CF),
    (0x23E9, 0x23F3),
    (0x23F8, 0x23FA),
    (0x24C2, 0x24C2),
    (0x25AA, 0x25AB),
    (0x25B6, 0x25B6),
    (0x25C0, 0x25C0),
    (0x25FB, 0x25FE),
    (0x2600, 0x2604),
    (0x260E, 0x260E),
    (0x2611, 0x2611),
    (0x2614, 0x2615),
    (0x2618, 0x2618),
    (0x261D, 0x261D),
    (0x2620, 0x2620),
    (0x2622, 0x2623),
    (0x2626, 0x2626),
    (0x262A, 0x262A),
    (0x262E, 0x262F),
    (0x2638, 0x263A),
    (0x2640, 0x2640),
    (0x2642, 0x2642),
    (0x2648, 0x2653),
    (0x265F, 0x2660),
    (0x2663, 0x2663),
    (0x2665, 0x2666),
    (0x2668, 0x2668),
    (0x267B, 0x267B),
    (0x267E, 0x267F),
    (0x2692, 0x2697),
    (0x2699, 0x2699),
    (0x269B, 0x269C),
    (0x26A0, 0x26A1),
    (0x26A7, 0x26A7),
    (0x26AA, 0x26AB),
    (0x26B0, 0x26B1),
    (0x26BD, 0x26BE),
    (0x26C4, 0x26C5),
    (0x26C8, 0x26C8),
    (0x26CE, 0x26CF),
    (0x26D1, 0x26D1),
    (0x26D3, 0x26D4),
    (0x26E9, 0x26EA),
    (0x26F0, 0x26F5),
    (0x26F7, 0x26FA),
    (0x26FD, 0x26FD),
    (0x2702, 0x2702),
    (0x2705, 0x2705),
    (0x2708, 0x270D),
    (0x270F, 0x270F),
    (0x2712, 0x2712),
    (0x2714, 0x2714),
    (0x2716, 0x2716),
    (0x271D, 0x271D),
    (0x2721, 0x2721),
    (0x2728, 0x2728),
    (0x2733, 0x2734),
    (0x2744, 0x2744),
    (0x2747, 0x2747),
    (0x274C, 0x274C),
    (0x274E, 0x274E),
    (0x2753, 0x2755),
    (0x2757, 0x2757),
    (0x2763, 0x2764),
    (0x2795, 0x2797),
    (0x27A1, 0x27A1),
    (0x27B0, 0x27B0),
    (0x27BF, 0x27BF),
    (0x2934, 0x2935),
    (0x2B05, 0x2B07),
    (0x2B1B, 0x2B1C),
    (0x2B50, 0x2B50),
    (0x2B55, 0x2B55),
    (0x3030, 0x3030),
    (0x303D, 0x303D),
    (0x3297, 0x3297),
    (0x3299, 0x3299),
    (0x1F004, 0x1F004),
    (0x1F0CF, 0x1F0CF),
    (0x1F170, 0x1F171),
    (0x1F17E, 0x1F17F),
    (0x1F18E, 0x1F18E),
    (0x1F191, 0x1F19A),
    (0x1F1E6, 0x1F1FF),
    (0x1F201, 0x1F202),
    (0x1F21A, 0x1F21A),
    (0x1F22F, 0x1F22F),
    (0x1F232, 0x1F23A),
    (0x1F250, 0x1F251),
    (0x1F300, 0x1F321),
    (0x1F324, 0x1F393),
    (0x1F396, 0x1F397),
    (0x1F399, 0x1F39B),
    (0x1F39E, 0x1F3F0),
    (0x1F3F3, 0x1F3F5),
    (0x1F3F7, 0x1F4FD),
    (0x1F4FF, 0x1F53D),
    (0x1F549, 0x1F54E),
    (0x1F550, 0x1F567),
    (0x1F56F, 0x1F570),
    (0x1F573, 0x1F57A),
    (0x1F587, 0x1F587),
    (0x1F58A, 0x1F58D),
    (0x1F590, 0x1F590),
    (0x1F595, 0x1F596),
    (0x1F5A4, 0x1F5A5),
    (0x1F5A8, 0x1F5A8),
    (0x1F5B1, 0x1F5B2),
    (0x1F5BC, 0x1F5BC),
    (0x1F5C2, 0x1F5C4),
    (0x1F5D1, 0x1F5D3),
    (0x1F5DC, 0x1F5DE),
    (0x1F5E1, 0x1F5E1),
    (0x1F5E3, 0x1F5E3),
    (0x1F5E8, 0x1F5E8),
    (0x1F5EF, 0x1F5EF),
    (0x1F5F3, 0x1F5F3),
    (0x1F5FA, 0x1F64F),
    (0x1F680, 0x1F6C5),
    (0x1F6CB, 0x1F6D2),
    (0x1F6D5, 0x1F6D8),
    (0x1F6DC, 0x1F6E5),
    (0x1F6E9, 0x1F6E9),
    (0x1F6EB, 0x1F6EC),
    (0x1F6F0, 0x1F6F0),
    (0x1F6F3, 0x1F6FC),
    (0x1F7E0, 0x1F7EB),
    (0x1F7F0, 0x1F7F0),
    (0x1F90C, 0x1F93A),
    (0x1F93C, 0x1F945),
    (0x1F947, 0x1F9FF),
    (0x1FA70, 0x1FA7C),
    (0x1FA80, 0x1FA8A),
    (0x1FA8E, 0x1FAC6),
    (0x1FAC8, 0x1FAC8),
    (0x1FACD, 0x1FADC),
    (0x1FADF, 0x1FAEA),
    (0x1FAEF, 0x1FAF8)
];

// --- Specifications ---

/// Whether `ch` is a tag character (U+E0020..U+E007F).
pub open spec fn tag_char(ch: char) -> bool {
    0xE0020 <= (ch as u32) <= 0xE007F
}

/// Whether `ch` has the `Emoji_Modifier` property (U+1F3FB..U+1F3FF).
pub open spec fn emoji_modifier_char(ch: char) -> bool {
    0x1F3FB <= (ch as u32) <= 0x1F3FF
}

/// Whether `ch` has the `Regional_Indicator` property (U+1F1E6..U+1F1FF).
pub open spec fn regional_indicator_char(ch: char) -> bool {
    0x1F1E6 <= (ch as u32) <= 0x1F1FF
}

/// Index of the first table entry at or after `from` whose base is `ch`, or
/// the table length when there is none.
pub open spec fn vs_index_from(ch: char, from: int) -> int
    decreases VARIATION_ENTRY_COUNT - from,
{
    if from < 0 || from >= VARIATION_ENTRY_COUNT {
        VARIATION_ENTRY_COUNT as int
    } else if VARIATION_ENTRIES@[from].0 == ch {
        from
    } else {
        vs_index_from(ch, from + 1)
    }
}

/// Index of `ch` in the variation-sequence table, or the table length.
pub open spec fn vs_index(ch: char) -> int {
    vs_index_from(ch, 0)
}

/// Whether `ch` is listed in `emoji-variation-sequences.txt`.
pub open spec fn has_vs(ch: char) -> bool {
    vs_index(ch) < VARIATION_ENTRY_COUNT
}

/// Whether `ch` is a variation-sequence base whose default side is emoji.
pub open spec fn emoji_default(ch: char) -> bool {
    has_vs(ch) && VARIATION_ENTRIES@[vs_index(ch)].1
}

/// Whether `ch` is a variation-sequence base whose default side is text.
pub open spec fn text_default(ch: char) -> bool {
    has_vs(ch) && !VARIATION_ENTRIES@[vs_index(ch)].1
}

/// Whether the code point `v` lies in one of the first `n` emoji ranges.
pub open spec fn in_emoji_ranges(v: u32, n: int) -> bool {
    exists|i: int| 0 <= i < n && range_holds(#[trigger] EMOJI_RANGES@[i], v)
}

/// Whether the inclusive range `r` holds `v`.
pub open spec fn range_holds(r: (u32, u32), v: u32) -> bool {
    r.0 <= v <= r.1
}

/// Whether `ch` has the Unicode `Emoji` property.
pub open spec fn emoji_char(ch: char) -> bool {
    in_emoji_ranges(ch as u32, 151)
}

/// Facts about `vs_index_from` used to relate a search position to the result.
pub proof fn lemma_vs_index_from(ch: char, from: int)
    requires
        0 <= from <= VARIATION_ENTRY_COUNT,
    ensures
        from <= vs_index_from(ch, from) <= VARIATION_ENTRY_COUNT,
        vs_index_from(ch, from) < VARIATION_ENTRY_COUNT ==> VARIATION_ENTRIES@[vs_index_from(ch, from)].0 == ch,
    decreases VARIATION_ENTRY_COUNT - from,
{
    if from < VARIATION_ENTRY_COUNT && VARIATION_ENTRIES@[from].0 != ch {
        lemma_vs_index_from(ch, from + 1);
    }
}

/// The table index of a listed character holds that character, and two
/// listed characters with the same index are the same character.
pub proof fn lemma_vs_index(ch: char)
    ensures
        0 <= vs_index(ch) <= VARIATION_ENTRY_COUNT,
        has_vs(ch) ==> VARIATION_ENTRIES@[vs_index(ch)].0 == ch,
{
    lemma_vs_index_from(ch, 0);
}

/// The search for `ch` from `from` stops no later than a position at or
/// after `from` that holds `ch`.
proof fn lemma_vs_index_from_at_most(ch: char, from: int, i: int)
    requires
        0 <= from <= i < VARIATION_ENTRY_COUNT,
        VARIATION_ENTRIES@[i].0 == ch,
    ensures
        vs_index_from(ch, from) <= i,
    decreases i - from,
{
    if VARIATION_ENTRIES@[from].0 != ch {
        lemma_vs_index_from_at_most(ch, from + 1, i);
    }
}

/// A character that the table holds at some position is listed.
pub proof fn lemma_listed_at(ch: char, i: int)
    requires
        0 <= i < VARIATION_ENTRY_COUNT,
        VARIATION_ENTRIES@[i].0 == ch,
    ensures
        has_vs(ch),
{
    lemma_vs_index_from_at_most(ch, 0, i);
}

// --- Executable predicates ---

/// Return true if the character is a tag character (U+E0020..U+E007F).
pub fn is_tag(ch: char) -> (r: bool)
    ensures
        r == tag_char(ch),
{
    let v = ch as u32;
    0xE0020 <= v && v <= 0xE007F
}

/// Return whether a character has the Unicode `Emoji_Modifier` property.
pub fn is_emoji_modifier(ch: char) -> (r: bool)
    ensures
        r == emoji_modifier_char(ch),
{
    let v = ch as u32;
    0x1F3FB <= v && v <= 0x1F3FF
}

/// Return whether a character has the Unicode `Regional_Indicator` property.
pub fn is_ri(ch: char) -> (r: bool)
    ensures
        r == regional_indicator_char(ch),
{
    let v = ch as u32;
    0x1F1E6 <= v && v <= 0x1F1FF
}

/// Return whether a character has the Unicode `Emoji` property.
pub fn is_emoji(ch: char) -> (r: bool)
    ensures
        r == emoji_char(ch),
{
    let v = ch as u32;
    let mut i: usize = 0;
    while i < 151
        invariant
            i <= 151,
            v == ch as u32,
            !in_emoji_ranges(v, i as int),
        decreases 151 - i,
    {
        let (start, end) = EMOJI_RANGES[i];
        if start <= v && v <= end {
            assert(range_holds(EMOJI_RANGES@[i as int], v));
            return true;
        }
        assert(!range_holds(EMOJI_RANGES@[i as int], v));
        i = i + 1;
    }
    false
}

/// Return the index of a character in the variation-sequence table, if it is
/// listed there.
pub fn variation_sequence_index(ch: char) -> (r: Option<usize>)
    ensures
        match r {
            Some(i) => i == vs_index(ch) && has_vs(ch),
            None => !has_vs(ch),
        },
{
    let mut i: usize = 0;
    while i < VARIATION_ENTRY_COUNT
        invariant
            i <= VARIATION_ENTRY_COUNT,
            vs_index_from(ch, i as int) == vs_index(ch),
        decreases VARIATION_ENTRY_COUNT - i,
    {
        if VARIATION_ENTRIES[i].0 == ch {
            return Some(i);
        }
        i = i + 1;
    }
    None
}

/// Return the variation sequence base at `index`.
pub fn variation_entry(index: usize) -> (r: char)
    requires
        index < VARIATION_ENTRY_COUNT,
    ensures
        r == VARIATION_ENTRIES@[index as int].0,
{
    VARIATION_ENTRIES[index].0
}

/// Return whether a character is listed in `emoji-variation-sequences.txt`.
pub fn has_variation_sequence(ch: char) -> (r: bool)
    ensures
        r == has_vs(ch),
{
    variation_sequence_index(ch).is_some()
}

/// Return whether a variation-sequence character defaults to text
/// presentation (it is listed and lacks `Emoji_Presentation`).
pub fn is_text_default(ch: char) -> (r: bool)
    ensures
        r == text_default(ch),
{
    match variation_sequence_index(ch) {
        Some(i) => !VARIATION_ENTRIES[i].1,
        None => false,
    }
}

/// Return whether a variation-sequence character defaults to emoji
/// presentation (it is listed and has `Emoji_Presentation`).
pub fn is_emoji_default(ch: char) -> (r: bool)
    ensures
        r == emoji_default(ch),
{
    match variation_sequence_index(ch) {
        Some(i) => VARIATION_ENTRIES[i].1,
        None => false,
    }
}

/// The emoji modifier characters (U+1F3FB..U+1F3FF).
pub const EMOJI_MODIFIERS: [char; 5] = ['\u{1F3FB}', '\u{1F3FC}', '\u{1F3FD}', '\u{1F3FE}', '\u{1F3FF}'];

/// The variation-sequence base characters, in table order.
pub fn variation_sequence_chars() -> (r: Vec<char>)
    ensures
        r@.len() == VARIATION_ENTRY_COUNT,
        forall|k: int| 0 <= k < VARIATION_ENTRY_COUNT ==> #[trigger] r@[k] == VARIATION_ENTRIES@[k].0,
{
    let mut out: Vec<char> = Vec::new();
    let mut i: usize = 0;
    while i < VARIATION_ENTRY_COUNT
        invariant
            i <= VARIATION_ENTRY_COUNT,
            out@.len() == i,
            forall|k: int| 0 <= k < i ==> #[trigger] out@[k] == VARIATION_ENTRIES@[k].0,
        decreases VARIATION_ENTRY_COUNT - i,
    {
        out.push(VARIATION_ENTRIES[i].0);
        i = i + 1;
    }
    out
}

/// Whether `ch` occurs in `table`, searched by bisection; `table` must be
/// sorted by code point.
pub fn in_char_table(table: &[char], ch: char) -> (r: bool)
    requires
        forall|i: int, j: int| 0 <= i < j < table@.len() ==> (table@[i] as u32) < (table@[j] as u32),
    ensures
        r == table@.contains(ch),
{
    let val = ch as u32;
    let mut lo: usize = 0;
    let mut hi: usize = table.len();
    while lo < hi
        invariant
            lo <= hi <= table@.len(),
            val == ch as u32,
            forall|i: int, j: int| 0 <= i < j < table@.len() ==> (table@[i] as u32) < (table@[j] as u32),
            forall|k: int| 0 <= k < table@.len() && table@[k] == ch ==> lo <= k < hi,
        decreases hi - lo,
    {
        let mid = lo + (hi - lo) / 2;
        let current = table[mid] as u32;
        if val < current {
            hi = mid;
        } else if val > current {
            lo = mid + 1;
        } else {
            proof {
                vstd::utf8::char_u32_cast(table@[mid as int], current);
                vstd::utf8::char_u32_cast(ch, val);
            }
            return true;
        }
    }
    false
}

} // verus!
