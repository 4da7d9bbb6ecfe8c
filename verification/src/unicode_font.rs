//! System Unicode / CJK / emoji font discovery for glyphs outside the KaTeX fonts.
//!
//! Discovery happens at most once per font role: [`FontDiscovery`] keeps one
//! slot for the primary Unicode font (which honours a user override before
//! falling back to system discovery), one for the system-only fallback and
//! one for the colour-emoji face. The outside work (environment, file system,
//! system font database) is handed in by the caller as closures; what is
//! decided here is when they run, what is kept, and which face of a font
//! collection a font spec selects.

use std::sync::Arc;
use vstd::prelude::*;

use crate::text::{chars_of, eq_ignore_ascii_case, eq_ignore_ascii_case_spec, parse_unsigned, parse_unsigned_spec, str_eq, string_from_chars};

verus! {

/// Shared immutable, owned font-file storage. Cloning never copies the bytes.
#[derive(Debug)]
pub struct FontData {
    bytes: Arc<Vec<u8>>,
}

/// `Arc::clone`: a second handle to the same allocation, so the same value.
#[verifier::external_body]
pub(crate) fn share_arc<T>(a: &Arc<T>) -> (r: Arc<T>)
    ensures
        r == *a,
{
    Arc::clone(a)
}

impl View for FontData {
    type V = Seq<u8>;

    closed spec fn view(&self) -> Seq<u8> {
        self.bytes@
    }
}

impl Clone for FontData {
    fn clone(&self) -> (r: Self)
        ensures
            r@ == self@,
    {
        FontData { bytes: share_arc(&self.bytes) }
    }
}

impl FontData {
    /// Take ownership of a font file's bytes.
    pub fn new(bytes: Vec<u8>) -> (r: Self)
        ensures
            r@ == bytes@,
    {
        FontData { bytes: Arc::new(bytes) }
    }

    pub fn as_slice(&self) -> (r: &[u8])
        ensures
            r@ == self@,
    {
        self.bytes.as_slice()
    }

    pub fn len(&self) -> (r: usize)
        ensures
            r == self@.len(),
    {
        self.as_slice().len()
    }

    pub fn is_empty(&self) -> (r: bool)
        ensures
            r == (self@.len() == 0),
    {
        self.len() == 0
    }

    /// The shared byte buffer itself (a new handle, no copy).
    pub fn to_arc(&self) -> (r: Arc<Vec<u8>>)
        ensures
            r@ == self@,
    {
        share_arc(&self.bytes)
    }

    pub fn as_ref(&self) -> (r: &[u8])
        ensures
            r@ == self@,
    {
        self.as_slice()
    }
}

// ---------------------------------------------------------------------------
// Emoji candidates
// ---------------------------------------------------------------------------

/// Number of Unicode `Emoji=Yes` ranges in [`emoji_range`].
pub open spec fn emoji_range_count() -> int {
    91
}

/// The `i`-th Unicode `Emoji=Yes` range (inclusive), in increasing order.
pub open spec fn emoji_range(i: int) -> (u32, u32) {
    if i == 0 {
        (0x0023u32, 0x0023u32)
    } else if i == 1 {
        (0x002Au32, 0x002Au32)
    } else if i == 2 {
        (0x0030u32, 0x0039u32)
    } else if i == 3 {
        (0x00A9u32, 0x00A9u32)
    } else if i == 4 {
        (0x00AEu32, 0x00AEu32)
    } else if i == 5 {
        (0x203Cu32, 0x203Cu32)
    } else if i == 6 {
        (0x2049u32, 0x2049u32)
    } else if i == 7 {
        (0x2122u32, 0x2122u32)
    } else if i == 8 {
        (0x2139u32, 0x2139u32)
    } else if i == 9 {
        (0x2194u32, 0x2199u32)
    } else if i == 10 {
        (0x21A9u32, 0x21AAu32)
    } else if i == 11 {
        (0x231Au32, 0x231Bu32)
    } else if i == 12 {
        (0x2328u32, 0x2328u32)
    } else if i == 13 {
        (0x23CFu32, 0x23CFu32)
    } else if i == 14 {
        (0x23E9u32, 0x23F3u32)
    } else if i == 15 {
        (0x23F8u32, 0x23FAu32)
    } else if i == 16 {
        (0x24C2u32, 0x24C2u32)
    } else if i == 17 {
        (0x25AAu32, 0x25ABu32)
    } else if i == 18 {
        (0x25B6u32, 0x25B6u32)
    } else if i == 19 {
        (0x25C0u32, 0x25C0u32)
    } else if i == 20 {
        (0x25FBu32, 0x25FEu32)
    } else if i == 21 {
        (0x2600u32, 0x2604u32)
    } else if i == 22 {
        (0x260Eu32, 0x260Eu32)
    } else if i == 23 {
        (0x2611u32, 0x2611u32)
    } else if i == 24 {
        (0x2614u32, 0x2615u32)
    } else if i == 25 {
        (0x2618u32, 0x2618u32)
    } else if i == 26 {
        (0x261Du32, 0x261Du32)
    } else if i == 27 {
        (0x2620u32, 0x2620u32)
    } else if i == 28 {
        (0x2622u32, 0x2623u32)
    } else if i == 29 {
        (0x2626u32, 0x2626u32)
    } else if i == 30 {
        (0x262Au32, 0x262Au32)
    } else if i == 31 {
        (0x262Eu32, 0x262Fu32)
    } else if i == 32 {
        (0x2638u32, 0x263Au32)
    } else if i == 33 {
        (0x2640u32, 0x2640u32)
    } else if i == 34 {
        (0x2642u32, 0x2642u32)
    } else if i == 35 {
        (0x2648u32, 0x2653u32)
    } else if i == 36 {
        (0x265Fu32, 0x2660u32)
    } else if i == 37 {
        (0x2663u32, 0x2663u32)
    } else if i == 38 {
        (0x2665u32, 0x2666u32)
    } else if i == 39 {
        (0x2668u32, 0x2668u32)
    } else if i == 40 {
        (0x267Bu32, 0x267Bu32)
    } else if i == 41 {
        (0x267Eu32, 0x267Fu32)
    } else if i == 42 {
        (0x2692u32, 0x2697u32)
    } else if i == 43 {
        (0x2699u32, 0x2699u32)
    } else if i == 44 {
        (0x269Bu32, 0x269Cu32)
    } else if i == 45 {
        (0x26A0u32, 0x26A1u32)
    } else if i == 46 {
        (0x26A7u32, 0x26A7u32)
    } else if i == 47 {
        (0x26AAu32, 0x26ABu32)
    } else if i == 48 {
        (0x26B0u32, 0x26B1u32)
    } else if i == 49 {
        (0x26BDu32, 0x26BEu32)
    } else if i == 50 {
        (0x26C4u32, 0x26C5u32)
    } else if i == 51 {
        (0x26C8u32, 0x26C8u32)
    } else if i == 52 {
        (0x26CEu32, 0x26CFu32)
    } else if i == 53 {
        (0x26D1u32, 0x26D1u32)
    } else if i == 54 {
        (0x26D3u32, 0x26D4u32)
    } else if i == 55 {
        (0x26E9u32, 0x26EAu32)
    } else if i == 56 {
        (0x26F0u32, 0x26F5u32)
    } else if i == 57 {
        (0x26F7u32, 0x26FAu32)
    } else if i == 58 {
        (0x26FDu32, 0x26FDu32)
    } else if i == 59 {
        (0x2702u32, 0x2702u32)
    } else if i == 60 {
        (0x2705u32, 0x2705u32)
    } else if i == 61 {
        (0x2708u32, 0x270Du32)
    } else if i == 62 {
        (0x270Fu32, 0x270Fu32)
    } else if i == 63 {
        (0x2712u32, 0x2712u32)
    } else if i == 64 {
        (0x2714u32, 0x2714u32)
    } else if i == 65 {
        (0x2716u32, 0x2716u32)
    } else if i == 66 {
        (0x271Du32, 0x271Du32)
    } else if i == 67 {
        (0x2721u32, 0x2721u32)
    } else if i == 68 {
        (0x2728u32, 0x2728u32)
    } else if i == 69 {
        (0x2733u32, 0x2734u32)
    } else if i == 70 {
        (0x2744u32, 0x2744u32)
    } else if i == 71 {
        (0x2747u32, 0x2747u32)
    } else if i == 72 {
        (0x274Cu32, 0x274Cu32)
    } else if i == 73 {
        (0x274Eu32, 0x274Eu32)
    } else if i == 74 {
        (0x2753u32, 0x2755u32)
    } else if i == 75 {
        (0x2757u32, 0x2757u32)
    } else if i == 76 {
        (0x2763u32, 0x2764u32)
    } else if i == 77 {
        (0x2795u32, 0x2797u32)
    } else if i == 78 {
        (0x27A1u32, 0x27A1u32)
    } else if i == 79 {
        (0x27B0u32, 0x27B0u32)
    } else if i == 80 {
        (0x27BFu32, 0x27BFu32)
    } else if i == 81 {
        (0x2934u32, 0x2935u32)
    } else if i == 82 {
        (0x2B05u32, 0x2B07u32)
    } else if i == 83 {
        (0x2B1Bu32, 0x2B1Cu32)
    } else if i == 84 {
        (0x2B50u32, 0x2B50u32)
    } else if i == 85 {
        (0x2B55u32, 0x2B55u32)
    } else if i == 86 {
        (0x3030u32, 0x3030u32)
    } else if i == 87 {
        (0x303Du32, 0x303Du32)
    } else if i == 88 {
        (0x3297u32, 0x3297u32)
    } else if i == 89 {
        (0x3299u32, 0x3299u32)
    } else {
        (0x1F000u32, 0x1FAFFu32)
    }
}

fn emoji_range_at(i: usize) -> (r: (u32, u32))
    requires
        i < 91,
    ensures
        r == emoji_range(i as int),
{
    match i {
        0 => (0x0023, 0x0023),
        1 => (0x002A, 0x002A),
        2 => (0x0030, 0x0039),
        3 => (0x00A9, 0x00A9),
        4 => (0x00AE, 0x00AE),
        5 => (0x203C, 0x203C),
        6 => (0x2049, 0x2049),
        7 => (0x2122, 0x2122),
        8 => (0x2139, 0x2139),
        9 => (0x2194, 0x2199),
        10 => (0x21A9, 0x21AA),
        11 => (0x231A, 0x231B),
        12 => (0x2328, 0x2328),
        13 => (0x23CF, 0x23CF),
        14 => (0x23E9, 0x23F3),
        15 => (0x23F8, 0x23FA),
        16 => (0x24C2, 0x24C2),
        17 => (0x25AA, 0x25AB),
        18 => (0x25B6, 0x25B6),
        19 => (0x25C0, 0x25C0),
        20 => (0x25FB, 0x25FE),
        21 => (0x2600, 0x2604),
        22 => (0x260E, 0x260E),
        23 => (0x2611, 0x2611),
        24 => (0x2614, 0x2615),
        25 => (0x2618, 0x2618),
        26 => (0x261D, 0x261D),
        27 => (0x2620, 0x2620),
        28 => (0x2622, 0x2623),
        29 => (0x2626, 0x2626),
        30 => (0x262A, 0x262A),
        31 => (0x262E, 0x262F),
        32 => (0x2638, 0x263A),
        33 => (0x2640, 0x2640),
        34 => (0x2642, 0x2642),
        35 => (0x2648, 0x2653),
        36 => (0x265F, 0x2660),
        37 => (0x2663, 0x2663),
        38 => (0x2665, 0x2666),
        39 => (0x2668, 0x2668),
        40 => (0x267B, 0x267B),
        41 => (0x267E, 0x267F),
        42 => (0x2692, 0x2697),
        43 => (0x2699, 0x2699),
        44 => (0x269B, 0x269C),
        45 => (0x26A0, 0x26A1),
        46 => (0x26A7, 0x26A7),
        47 => (0x26AA, 0x26AB),
        48 => (0x26B0, 0x26B1),
        49 => (0x26BD, 0x26BE),
        50 => (0x26C4, 0x26C5),
        51 => (0x26C8, 0x26C8),
        52 => (0x26CE, 0x26CF),
        53 => (0x26D1, 0x26D1),
        54 => (0x26D3, 0x26D4),
        55 => (0x26E9, 0x26EA),
        56 => (0x26F0, 0x26F5),
        57 => (0x26F7, 0x26FA),
        58 => (0x26FD, 0x26FD),
        59 => (0x2702, 0x2702),
        60 => (0x2705, 0x2705),
        61 => (0x2708, 0x270D),
        62 => (0x270F, 0x270F),
        63 => (0x2712, 0x2712),
        64 => (0x2714, 0x2714),
        65 => (0x2716, 0x2716),
        66 => (0x271D, 0x271D),
        67 => (0x2721, 0x2721),
        68 => (0x2728, 0x2728),
        69 => (0x2733, 0x2734),
        70 => (0x2744, 0x2744),
        71 => (0x2747, 0x2747),
        72 => (0x274C, 0x274C),
        73 => (0x274E, 0x274E),
        74 => (0x2753, 0x2755),
        75 => (0x2757, 0x2757),
        76 => (0x2763, 0x2764),
        77 => (0x2795, 0x2797),
        78 => (0x27A1, 0x27A1),
        79 => (0x27B0, 0x27B0),
        80 => (0x27BF, 0x27BF),
        81 => (0x2934, 0x2935),
        82 => (0x2B05, 0x2B07),
        83 => (0x2B1B, 0x2B1C),
        84 => (0x2B50, 0x2B50),
        85 => (0x2B55, 0x2B55),
        86 => (0x3030, 0x3030),
        87 => (0x303D, 0x303D),
        88 => (0x3297, 0x3297),
        89 => (0x3299, 0x3299),
        _ => (0x1F000, 0x1FAFF),
    }
}

/// Whether the code point `cp` lies in one of the emoji ranges.
pub open spec fn in_emoji_ranges(cp: u32) -> bool {
    exists|i: int|
        0 <= i < emoji_range_count() && (#[trigger] emoji_range(i)).0 <= cp && cp
            <= emoji_range(i).1
}

proof fn lemma_emoji_ranges_adjacent()
    ensures
        forall|i: int| 0 <= i < emoji_range_count() ==> (#[trigger] emoji_range(i)).0 <= emoji_range(i).1,
        forall|i: int| 0 <= i < emoji_range_count() - 1 ==> (#[trigger] emoji_range(i)).1 < emoji_range(i + 1).0,
{
}

proof fn lemma_emoji_ranges_sorted(i: int, j: int)
    requires
        0 <= i < j < emoji_range_count(),
    ensures
        emoji_range(i).1 < emoji_range(j).0,
    decreases j - i,
{
    lemma_emoji_ranges_adjacent();
    if j > i + 1 {
        lemma_emoji_ranges_sorted(i, j - 1);
        assert(emoji_range(j - 1).0 <= emoji_range(j - 1).1);
        assert(emoji_range(j - 1).1 < emoji_range(j).0);
    }
}

/// The code points below U+1F000 with the Unicode `Emoji=Yes` property
/// (`emoji-data.txt`), listed as the Unicode data lists them.
pub open spec fn unicode_emoji_below_1f000(cp: u32) -> bool {
        cp == 0x0023u32
        || cp == 0x002Au32
        || (0x0030u32 <= cp && cp <= 0x0039u32)
        || cp == 0x00A9u32
        || cp == 0x00AEu32
        || cp == 0x203Cu32
        || cp == 0x2049u32
        || cp == 0x2122u32
        || cp == 0x2139u32
        || (0x2194u32 <= cp && cp <= 0x2199u32)
        || (0x21A9u32 <= cp && cp <= 0x21AAu32)
        || (0x231Au32 <= cp && cp <= 0x231Bu32)
        || cp == 0x2328u32
        || cp == 0x23CFu32
        || (0x23E9u32 <= cp && cp <= 0x23F3u32)
        || (0x23F8u32 <= cp && cp <= 0x23FAu32)
        || cp == 0x24C2u32
        || (0x25AAu32 <= cp && cp <= 0x25ABu32)
        || cp == 0x25B6u32
        || cp == 0x25C0u32
        || (0x25FBu32 <= cp && cp <= 0x25FEu32)
        || (0x2600u32 <= cp && cp <= 0x2604u32)
        || cp == 0x260Eu32
        || cp == 0x2611u32
        || (0x2614u32 <= cp && cp <= 0x2615u32)
        || cp == 0x2618u32
        || cp == 0x261Du32
        || cp == 0x2620u32
        || (0x2622u32 <= cp && cp <= 0x2623u32)
        || cp == 0x2626u32
        || cp == 0x262Au32
        || (0x262Eu32 <= cp && cp <= 0x262Fu32)
        || (0x2638u32 <= cp && cp <= 0x263Au32)
        || cp == 0x2640u32
        || cp == 0x2642u32
        || (0x2648u32 <= cp && cp <= 0x2653u32)
        || (0x265Fu32 <= cp && cp <= 0x2660u32)
        || cp == 0x2663u32
        || (0x2665u32 <= cp && cp <= 0x2666u32)
        || cp == 0x2668u32
        || cp == 0x267Bu32
        || (0x267Eu32 <= cp && cp <= 0x267Fu32)
        || (0x2692u32 <= cp && cp <= 0x2697u32)
        || cp == 0x2699u32
        || (0x269Bu32 <= cp && cp <= 0x269Cu32)
        || (0x26A0u32 <= cp && cp <= 0x26A1u32)
        || cp == 0x26A7u32
        || (0x26AAu32 <= cp && cp <= 0x26ABu32)
        || (0x26B0u32 <= cp && cp <= 0x26B1u32)
        || (0x26BDu32 <= cp && cp <= 0x26BEu32)
        || (0x26C4u32 <= cp && cp <= 0x26C5u32)
        || cp == 0x26C8u32
        || (0x26CEu32 <= cp && cp <= 0x26CFu32)
        || cp == 0x26D1u32
        || (0x26D3u32 <= cp && cp <= 0x26D4u32)
        || (0x26E9u32 <= cp && cp <= 0x26EAu32)
        || (0x26F0u32 <= cp && cp <= 0x26F5u32)
        || (0x26F7u32 <= cp && cp <= 0x26FAu32)
        || cp == 0x26FDu32
        || cp == 0x2702u32
        || cp == 0x2705u32
        || (0x2708u32 <= cp && cp <= 0x270Du32)
        || cp == 0x270Fu32
        || cp == 0x2712u32
        || cp == 0x2714u32
        || cp == 0x2716u32
        || cp == 0x271Du32
        || cp == 0x2721u32
        || cp == 0x2728u32
        || (0x2733u32 <= cp && cp <= 0x2734u32)
        || cp == 0x2744u32
        || cp == 0x2747u32
        || cp == 0x274Cu32
        || cp == 0x274Eu32
        || (0x2753u32 <= cp && cp <= 0x2755u32)
        || cp == 0x2757u32
        || (0x2763u32 <= cp && cp <= 0x2764u32)
        || (0x2795u32 <= cp && cp <= 0x2797u32)
        || cp == 0x27A1u32
        || cp == 0x27B0u32
        || cp == 0x27BFu32
        || (0x2934u32 <= cp && cp <= 0x2935u32)
        || (0x2B05u32 <= cp && cp <= 0x2B07u32)
        || (0x2B1Bu32 <= cp && cp <= 0x2B1Cu32)
        || cp == 0x2B50u32
        || cp == 0x2B55u32
        || cp == 0x3030u32
        || cp == 0x303Du32
        || cp == 0x3297u32
        || cp == 0x3299u32
}

/// What the emoji filter lets through, against the Unicode data: below
/// U+1F000 exactly the code points with the `Emoji=Yes` property (U+2764
/// HEAVY BLACK HEART among them); the whole block U+1F000..U+1FAFF, which
/// holds every supplementary `Emoji=Yes` code point, is let through as a
/// conservative superset; nothing above it.
pub proof fn law_emoji_filter_follows_the_unicode_data(cp: u32)
    ensures
        cp < 0x1F000 ==> (in_emoji_ranges(cp) == unicode_emoji_below_1f000(cp)),
        0x1F000 <= cp <= 0x1FAFF ==> in_emoji_ranges(cp),
        cp > 0x1FAFF ==> !in_emoji_ranges(cp),
{
        if cp == 0x0023u32 {
            assert(emoji_range(0).0 <= cp && cp <= emoji_range(0).1);
        } else if cp == 0x002Au32 {
            assert(emoji_range(1).0 <= cp && cp <= emoji_range(1).1);
        } else if (0x0030u32 <= cp && cp <= 0x0039u32) {
            assert(emoji_range(2).0 <= cp && cp <= emoji_range(2).1);
        } else if cp == 0x00A9u32 {
            assert(emoji_range(3).0 <= cp && cp <= emoji_range(3).1);
        } else if cp == 0x00AEu32 {
            assert(emoji_range(4).0 <= cp && cp <= emoji_range(4).1);
        } else if cp == 0x203Cu32 {
            assert(emoji_range(5).0 <= cp && cp <= emoji_range(5).1);
        } else if cp == 0x2049u32 {
            assert(emoji_range(6).0 <= cp && cp <= emoji_range(6).1);
        } else if cp == 0x2122u32 {
            assert(emoji_range(7).0 <= cp && cp <= emoji_range(7).1);
        } else if cp == 0x2139u32 {
            assert(emoji_range(8).0 <= cp && cp <= emoji_range(8).1);
        } else if (0x2194u32 <= cp && cp <= 0x2199u32) {
            assert(emoji_range(9).0 <= cp && cp <= emoji_range(9).1);
        } else if (0x21A9u32 <= cp && cp <= 0x21AAu32) {
            assert(emoji_range(10).0 <= cp && cp <= emoji_range(10).1);
        } else if (0x231Au32 <= cp && cp <= 0x231Bu32) {
            assert(emoji_range(11).0 <= cp && cp <= emoji_range(11).1);
        } else if cp == 0x2328u32 {
            assert(emoji_range(12).0 <= cp && cp <= emoji_range(12).1);
        } else if cp == 0x23CFu32 {
            assert(emoji_range(13).0 <= cp && cp <= emoji_range(13).1);
        } else if (0x23E9u32 <= cp && cp <= 0x23F3u32) {
            assert(emoji_range(14).0 <= cp && cp <= emoji_range(14).1);
        } else if (0x23F8u32 <= cp && cp <= 0x23FAu32) {
            assert(emoji_range(15).0 <= cp && cp <= emoji_range(15).1);
        } else if cp == 0x24C2u32 {
            assert(emoji_range(16).0 <= cp && cp <= emoji_range(16).1);
        } else if (0x25AAu32 <= cp && cp <= 0x25ABu32) {
            assert(emoji_range(17).0 <= cp && cp <= emoji_range(17).1);
        } else if cp == 0x25B6u32 {
            assert(emoji_range(18).0 <= cp && cp <= emoji_range(18).1);
        } else if cp == 0x25C0u32 {
            assert(emoji_range(19).0 <= cp && cp <= emoji_range(19).1);
        } else if (0x25FBu32 <= cp && cp <= 0x25FEu32) {
            assert(emoji_range(20).0 <= cp && cp <= emoji_range(20).1);
        } else if (0x2600u32 <= cp && cp <= 0x2604u32) {
            assert(emoji_range(21).0 <= cp && cp <= emoji_range(21).1);
        } else if cp == 0x260Eu32 {
            assert(emoji_range(22).0 <= cp && cp <= emoji_range(22).1);
        } else if cp == 0x2611u32 {
            assert(emoji_range(23).0 <= cp && cp <= emoji_range(23).1);
        } else if (0x2614u32 <= cp && cp <= 0x2615u32) {
            assert(emoji_range(24).0 <= cp && cp <= emoji_range(24).1);
        } else if cp == 0x2618u32 {
            assert(emoji_range(25).0 <= cp && cp <= emoji_range(25).1);
        } else if cp == 0x261Du32 {
            assert(emoji_range(26).0 <= cp && cp <= emoji_range(26).1);
        } else if cp == 0x2620u32 {
            assert(emoji_range(27).0 <= cp && cp <= emoji_range(27).1);
        } else if (0x2622u32 <= cp && cp <= 0x2623u32) {
            assert(emoji_range(28).0 <= cp && cp <= emoji_range(28).1);
        } else if cp == 0x2626u32 {
            assert(emoji_range(29).0 <= cp && cp <= emoji_range(29).1);
        } else if cp == 0x262Au32 {
            assert(emoji_range(30).0 <= cp && cp <= emoji_range(30).1);
        } else if (0x262Eu32 <= cp && cp <= 0x262Fu32) {
            assert(emoji_range(31).0 <= cp && cp <= emoji_range(31).1);
        } else if (0x2638u32 <= cp && cp <= 0x263Au32) {
            assert(emoji_range(32).0 <= cp && cp <= emoji_range(32).1);
        } else if cp == 0x2640u32 {
            assert(emoji_range(33).0 <= cp && cp <= emoji_range(33).1);
        } else if cp == 0x2642u32 {
            assert(emoji_range(34).0 <= cp && cp <= emoji_range(34).1);
        } else if (0x2648u32 <= cp && cp <= 0x2653u32) {
            assert(emoji_range(35).0 <= cp && cp <= emoji_range(35).1);
        } else if (0x265Fu32 <= cp && cp <= 0x2660u32) {
            assert(emoji_range(36).0 <= cp && cp <= emoji_range(36).1);
        } else if cp == 0x2663u32 {
            assert(emoji_range(37).0 <= cp && cp <= emoji_range(37).1);
        } else if (0x2665u32 <= cp && cp <= 0x2666u32) {
            assert(emoji_range(38).0 <= cp && cp <= emoji_range(38).1);
        } else if cp == 0x2668u32 {
            assert(emoji_range(39).0 <= cp && cp <= emoji_range(39).1);
        } else if cp == 0x267Bu32 {
            assert(emoji_range(40).0 <= cp && cp <= emoji_range(40).1);
        } else if (0x267Eu32 <= cp && cp <= 0x267Fu32) {
            assert(emoji_range(41).0 <= cp && cp <= emoji_range(41).1);
        } else if (0x2692u32 <= cp && cp <= 0x2697u32) {
            assert(emoji_range(42).0 <= cp && cp <= emoji_range(42).1);
        } else if cp == 0x2699u32 {
            assert(emoji_range(43).0 <= cp && cp <= emoji_range(43).1);
        } else if (0x269Bu32 <= cp && cp <= 0x269Cu32) {
            assert(emoji_range(44).0 <= cp && cp <= emoji_range(44).1);
        } else if (0x26A0u32 <= cp && cp <= 0x26A1u32) {
            assert(emoji_range(45).0 <= cp && cp <= emoji_range(45).1);
        } else if cp == 0x26A7u32 {
            assert(emoji_range(46).0 <= cp && cp <= emoji_range(46).1);
        } else if (0x26AAu32 <= cp && cp <= 0x26ABu32) {
            assert(emoji_range(47).0 <= cp && cp <= emoji_range(47).1);
        } else if (0x26B0u32 <= cp && cp <= 0x26B1u32) {
            assert(emoji_range(48).0 <= cp && cp <= emoji_range(48).1);
        } else if (0x26BDu32 <= cp && cp <= 0x26BEu32) {
            assert(emoji_range(49).0 <= cp && cp <= emoji_range(49).1);
        } else if (0x26C4u32 <= cp && cp <= 0x26C5u32) {
            assert(emoji_range(50).0 <= cp && cp <= emoji_range(50).1);
        } else if cp == 0x26C8u32 {
            assert(emoji_range(51).0 <= cp && cp <= emoji_range(51).1);
        } else if (0x26CEu32 <= cp && cp <= 0x26CFu32) {
            assert(emoji_range(52).0 <= cp && cp <= emoji_range(52).1);
        } else if cp == 0x26D1u32 {
            assert(emoji_range(53).0 <= cp && cp <= emoji_range(53).1);
        } else if (0x26D3u32 <= cp && cp <= 0x26D4u32) {
            assert(emoji_range(54).0 <= cp && cp <= emoji_range(54).1);
        } else if (0x26E9u32 <= cp && cp <= 0x26EAu32) {
            assert(emoji_range(55).0 <= cp && cp <= emoji_range(55).1);
        } else if (0x26F0u32 <= cp && cp <= 0x26F5u32) {
            assert(emoji_range(56).0 <= cp && cp <= emoji_range(56).1);
        } else if (0x26F7u32 <= cp && cp <= 0x26FAu32) {
            assert(emoji_range(57).0 <= cp && cp <= emoji_range(57).1);
        } else if cp == 0x26FDu32 {
            assert(emoji_range(58).0 <= cp && cp <= emoji_range(58).1);
        } else if cp == 0x2702u32 {
            assert(emoji_range(59).0 <= cp && cp <= emoji_range(59).1);
        } else if cp == 0x2705u32 {
            assert(emoji_range(60).0 <= cp && cp <= emoji_range(60).1);
        } else if (0x2708u32 <= cp && cp <= 0x270Du32) {
            assert(emoji_range(61).0 <= cp && cp <= emoji_range(61).1);
        } else if cp == 0x270Fu32 {
            assert(emoji_range(62).0 <= cp && cp <= emoji_range(62).1);
        } else if cp == 0x2712u32 {
            assert(emoji_range(63).0 <= cp && cp <= emoji_range(63).1);
        } else if cp == 0x2714u32 {
            assert(emoji_range(64).0 <= cp && cp <= emoji_range(64).1);
        } else if cp == 0x2716u32 {
            assert(emoji_range(65).0 <= cp && cp <= emoji_range(65).1);
        } else if cp == 0x271Du32 {
            assert(emoji_range(66).0 <= cp && cp <= emoji_range(66).1);
        } else if cp == 0x2721u32 {
            assert(emoji_range(67).0 <= cp && cp <= emoji_range(67).1);
        } else if cp == 0x2728u32 {
            assert(emoji_range(68).0 <= cp && cp <= emoji_range(68).1);
        } else if (0x2733u32 <= cp && cp <= 0x2734u32) {
            assert(emoji_range(69).0 <= cp && cp <= emoji_range(69).1);
        } else if cp == 0x2744u32 {
            assert(emoji_range(70).0 <= cp && cp <= emoji_range(70).1);
        } else if cp == 0x2747u32 {
            assert(emoji_range(71).0 <= cp && cp <= emoji_range(71).1);
        } else if cp == 0x274Cu32 {
            assert(emoji_range(72).0 <= cp && cp <= emoji_range(72).1);
        } else if cp == 0x274Eu32 {
            assert(emoji_range(73).0 <= cp && cp <= emoji_range(73).1);
        } else if (0x2753u32 <= cp && cp <= 0x2755u32) {
            assert(emoji_range(74).0 <= cp && cp <= emoji_range(74).1);
        } else if cp == 0x2757u32 {
            assert(emoji_range(75).0 <= cp && cp <= emoji_range(75).1);
        } else if (0x2763u32 <= cp && cp <= 0x2764u32) {
            assert(emoji_range(76).0 <= cp && cp <= emoji_range(76).1);
        } else if (0x2795u32 <= cp && cp <= 0x2797u32) {
            assert(emoji_range(77).0 <= cp && cp <= emoji_range(77).1);
        } else if cp == 0x27A1u32 {
            assert(emoji_range(78).0 <= cp && cp <= emoji_range(78).1);
        } else if cp == 0x27B0u32 {
            assert(emoji_range(79).0 <= cp && cp <= emoji_range(79).1);
        } else if cp == 0x27BFu32 {
            assert(emoji_range(80).0 <= cp && cp <= emoji_range(80).1);
        } else if (0x2934u32 <= cp && cp <= 0x2935u32) {
            assert(emoji_range(81).0 <= cp && cp <= emoji_range(81).1);
        } else if (0x2B05u32 <= cp && cp <= 0x2B07u32) {
            assert(emoji_range(82).0 <= cp && cp <= emoji_range(82).1);
        } else if (0x2B1Bu32 <= cp && cp <= 0x2B1Cu32) {
            assert(emoji_range(83).0 <= cp && cp <= emoji_range(83).1);
        } else if cp == 0x2B50u32 {
            assert(emoji_range(84).0 <= cp && cp <= emoji_range(84).1);
        } else if cp == 0x2B55u32 {
            assert(emoji_range(85).0 <= cp && cp <= emoji_range(85).1);
        } else if cp == 0x3030u32 {
            assert(emoji_range(86).0 <= cp && cp <= emoji_range(86).1);
        } else if cp == 0x303Du32 {
            assert(emoji_range(87).0 <= cp && cp <= emoji_range(87).1);
        } else if cp == 0x3297u32 {
            assert(emoji_range(88).0 <= cp && cp <= emoji_range(88).1);
        } else if cp == 0x3299u32 {
            assert(emoji_range(89).0 <= cp && cp <= emoji_range(89).1);
        } else if 0x1F000u32 <= cp && cp <= 0x1FAFFu32 {
            assert(emoji_range(90).0 <= cp && cp <= emoji_range(90).1);
        }
    if in_emoji_ranges(cp) {
        let i = choose|i: int| 0 <= i < emoji_range_count() && (#[trigger] emoji_range(i)).0 <= cp && cp <= emoji_range(i).1;
        assert(0 <= i < 91);
    }
}

/// Fast code-point filter used before touching the large colour-emoji font:
/// true exactly for the characters in the Unicode `Emoji=Yes` ranges.
pub fn is_emoji_candidate(ch: char) -> (r: bool)
    ensures
        r == in_emoji_ranges(ch as u32),
{
    let cp = ch as u32;
    proof {
        lemma_emoji_ranges_adjacent();
    }
    let mut lo: usize = 0;
    let mut hi: usize = 91;
    while lo < hi
        invariant
            0 <= lo <= hi <= 91,
            cp == ch as u32,
            forall|k: int| 0 <= k < lo ==> (#[trigger] emoji_range(k)).1 < cp,
            forall|k: int| hi <= k < 91 ==> cp < (#[trigger] emoji_range(k)).0,
        decreases hi - lo,
    {
        let mid = lo + (hi - lo) / 2;
        let (start, end) = emoji_range_at(mid);
        if cp < start {
            assert forall|k: int| mid <= k < 91 implies cp < (#[trigger] emoji_range(k)).0 by {
                if k > mid {
                    lemma_emoji_ranges_sorted(mid as int, k);
                    lemma_emoji_ranges_adjacent();
                }
            }
            hi = mid;
        } else if cp > end {
            assert forall|k: int| 0 <= k < mid + 1 implies (#[trigger] emoji_range(k)).1 < cp by {
                if k < mid {
                    lemma_emoji_ranges_sorted(k, mid as int);
                    lemma_emoji_ranges_adjacent();
                }
            }
            lo = mid + 1;
        } else {
            assert(0 <= mid < emoji_range_count());
            assert(emoji_range(mid as int).0 <= cp && cp <= emoji_range(mid as int).1);
            assert(in_emoji_ranges(cp));
            return true;
        }
    }
    assert(!in_emoji_ranges(cp)) by {
        if exists|i: int|
            0 <= i < emoji_range_count() && (#[trigger] emoji_range(i)).0 <= cp && cp
                <= emoji_range(i).1 {
            let i = choose|i: int|
                0 <= i < emoji_range_count() && (#[trigger] emoji_range(i)).0 <= cp && cp
                    <= emoji_range(i).1;
            if i < lo {
                assert(emoji_range(i).1 < cp);
            } else {
                assert(cp < emoji_range(i).0);
            }
        }
    }
    false
}

// ---------------------------------------------------------------------------
// SFNT containers
// ---------------------------------------------------------------------------

pub open spec fn starts_with4(b: Seq<u8>, x0: u8, x1: u8, x2: u8, x3: u8) -> bool {
    b.len() >= 4 && b[0] == x0 && b[1] == x1 && b[2] == x2 && b[3] == x3
}

/// A single TrueType / OpenType font (version `00 01 00 00`, `OTTO` or `true`).
pub open spec fn is_sfnt_single_font_spec(b: Seq<u8>) -> bool {
    starts_with4(b, 0x00, 0x01, 0x00, 0x00) || starts_with4(b, 0x4F, 0x54, 0x54, 0x4F)
        || starts_with4(b, 0x74, 0x72, 0x75, 0x65)
}

/// A TrueType collection header `ttcf`.
pub open spec fn is_ttc_spec(b: Seq<u8>) -> bool {
    starts_with4(b, 0x74, 0x74, 0x63, 0x66)
}

pub open spec fn is_sfnt_container_spec(b: Seq<u8>) -> bool {
    is_sfnt_single_font_spec(b) || is_ttc_spec(b)
}

fn starts_with4_exec(b: &[u8], x0: u8, x1: u8, x2: u8, x3: u8) -> (r: bool)
    ensures
        r == starts_with4(b@, x0, x1, x2, x3),
{
    b.len() >= 4 && b[0] == x0 && b[1] == x1 && b[2] == x2 && b[3] == x3
}

/// TrueType / OpenType **single** font (not a `.ttc` collection).
pub fn is_sfnt_single_font(bytes: &[u8]) -> (r: bool)
    ensures
        r == is_sfnt_single_font_spec(bytes@),
{
    starts_with4_exec(bytes, 0x00, 0x01, 0x00, 0x00) || starts_with4_exec(
        bytes,
        0x4F,
        0x54,
        0x54,
        0x4F,
    ) || starts_with4_exec(bytes, 0x74, 0x72, 0x75, 0x65)
}

/// Single font or TrueType **collection** (`ttcf`).
pub fn is_sfnt_container(bytes: &[u8]) -> (r: bool)
    ensures
        r == is_sfnt_container_spec(bytes@),
{
    is_sfnt_single_font(bytes) || starts_with4_exec(bytes, 0x74, 0x74, 0x63, 0x66)
}

/// Number of faces in a collection: the big-endian `u32` at offset 8 of a
/// file that starts with `ttcf` and holds at least 12 bytes.
pub open spec fn collection_face_count(b: Seq<u8>) -> Option<u32> {
    if is_ttc_spec(b) && b.len() >= 12 {
        Some(
            ((b[8] as int) * 0x1000000 + (b[9] as int) * 0x10000 + (b[10] as int) * 0x100 + (
            b[11] as int)) as u32,
        )
    } else {
        None
    }
}

/// `ttf_parser::fonts_in_collection`: reads the `ttcf` magic, skips the
/// version and returns the face count; `None` when the bytes are too short or
/// are not a collection.
#[verifier::external_body]
fn fonts_in_collection(bytes: &[u8]) -> (r: Option<u32>)
    ensures
        r == collection_face_count(bytes@),
{
    ttf_parser::fonts_in_collection(bytes)
}

// ---------------------------------------------------------------------------
// Font specs: `path`, `path#index` or `path#Family Name`
// ---------------------------------------------------------------------------

/// Which face of a collection a font spec asks for.
#[derive(Debug)]
pub enum FaceSelector {
    Index(u32),
    Family(String),
}

pub enum FaceSelectorView {
    Index(u32),
    Family(Seq<char>),
}

impl View for FaceSelector {
    type V = FaceSelectorView;

    open spec fn view(&self) -> FaceSelectorView {
        match self {
            FaceSelector::Index(i) => FaceSelectorView::Index(*i),
            FaceSelector::Family(f) => FaceSelectorView::Family(f@),
        }
    }
}

/// A font spec split into the file path and the optional face selector.
#[derive(Debug)]
pub struct FontSpec {
    pub path: String,
    pub selector: Option<FaceSelector>,
}

/// Index of the last occurrence of `c` in `s`, or `-1`.
pub open spec fn last_index_of(s: Seq<char>, c: char) -> int
    decreases s.len(),
{
    if s.len() == 0 {
        -1
    } else if s.last() == c {
        s.len() - 1
    } else {
        last_index_of(s.drop_last(), c)
    }
}

pub open spec fn selector_view(s: Option<FaceSelector>) -> Option<FaceSelectorView> {
    match s {
        Some(x) => Some(x@),
        None => None,
    }
}

/// How a spec splits: at the last `#`, when both sides are non-empty; a
/// suffix that parses as a `u32` selects a face index, any other suffix a
/// family name. Otherwise the whole spec is the path.
pub open spec fn font_spec_parts(s: Seq<char>) -> (Seq<char>, Option<FaceSelectorView>) {
    let k = last_index_of(s, '#');
    if k < 0 {
        (s, None)
    } else {
        let p = s.subrange(0, k);
        let suffix = s.subrange(k + 1, s.len() as int);
        if p.len() == 0 || suffix.len() == 0 {
            (s, None)
        } else if parse_unsigned_spec(suffix, u32::MAX as int) is Some {
            (p, Some(FaceSelectorView::Index(parse_unsigned_spec(suffix, u32::MAX as int)->0 as u32)))
        } else {
            (p, Some(FaceSelectorView::Family(suffix)))
        }
    }
}

proof fn lemma_last_index_of_suffix_free(s: Seq<char>, c: char, i: int)
    requires
        0 <= i <= s.len(),
        forall|j: int| i <= j < s.len() ==> s[j] != c,
    ensures
        last_index_of(s, c) == last_index_of(s.subrange(0, i), c),
    decreases s.len() - i,
{
    if i < s.len() {
        assert(s.drop_last() =~= s.subrange(0, s.len() - 1));
        lemma_last_index_of_suffix_free(s.drop_last(), c, i);
        assert(s.drop_last().subrange(0, i) =~= s.subrange(0, i));
    } else {
        assert(s.subrange(0, i) =~= s);
    }
}

proof fn lemma_last_index_of_found(s: Seq<char>, c: char, k: int)
    requires
        0 <= k < s.len(),
        s[k] == c,
    ensures
        last_index_of(s.subrange(0, k + 1), c) == k,
{
}

proof fn lemma_last_index_of_bounds(s: Seq<char>, c: char)
    ensures
        -1 <= last_index_of(s, c) < s.len(),
        last_index_of(s, c) >= 0 ==> s[last_index_of(s, c)] == c,
    decreases s.len(),
{
    if s.len() > 0 && s.last() != c {
        lemma_last_index_of_bounds(s.drop_last(), c);
    }
}

/// Split a font spec into its path and face selector.
pub fn parse_font_spec(spec: &str) -> (r: FontSpec)
    ensures
        r.path@ == font_spec_parts(spec@).0,
        selector_view(r.selector) == font_spec_parts(spec@).1,
{
    let c = chars_of(spec);
    let n = c.len();
    let mut k: usize = n;
    while k > 0 && c[k - 1] != '#'
        invariant
            c@ == spec@,
            k <= n == c@.len(),
            forall|j: int| k <= j < n ==> c@[j] != '#',
        decreases k,
    {
        k = k - 1;
    }
    let found = k > 0;
    proof {
        lemma_last_index_of_bounds(spec@, '#');
    }
    if !found {
        proof {
            lemma_last_index_of_suffix_free(spec@, '#', 0);
            assert(spec@.subrange(0, 0).len() == 0);
        }
        return FontSpec { path: string_from_chars(c.as_slice(), 0, n), selector: None };
    }
    let h = k - 1;
    proof {
        lemma_last_index_of_suffix_free(spec@, '#', h + 1);
        lemma_last_index_of_found(spec@, '#', h as int);
    }
    assert(c@.subrange(0, n as int) =~= spec@);
    if h == 0 || h + 1 == n {
        return FontSpec { path: string_from_chars(c.as_slice(), 0, n), selector: None };
    }
    let suffix = c.as_slice();
    let mut sfx: Vec<char> = Vec::new();
    let mut i = h + 1;
    while i < n
        invariant
            h + 1 <= i <= n == c@.len(),
            suffix@ == c@,
            sfx@ == c@.subrange(h + 1, i as int),
        decreases n - i,
    {
        sfx.push(suffix[i]);
        assert(sfx@ =~= c@.subrange(h + 1, i + 1));
        i = i + 1;
    }
    let path = string_from_chars(c.as_slice(), 0, h);
    assert(last_index_of(spec@, '#') == h);
    assert(sfx@ =~= spec@.subrange(h + 1, spec@.len() as int));
    assert(sfx@.subrange(0, sfx@.len() as int) =~= sfx@);
    match parse_unsigned(sfx.as_slice(), 0xFFFF_FFFF) {
        Some(index) => FontSpec { path, selector: Some(FaceSelector::Index(index as u32)) },
        None => FontSpec {
            path,
            selector: Some(FaceSelector::Family(string_from_chars(sfx.as_slice(), 0, sfx.len()))),
        },
    }
}

/// Faces a collection may name: the face count of a collection, one for any
/// other file.
pub open spec fn face_bound(b: Seq<u8>) -> u32 {
    match collection_face_count(b) {
        Some(c) => c,
        None => 1u32,
    }
}

/// The faces that `fontdb` reads from a font file's bytes: each face's
/// index and family names, in the order the faces are stored.
pub uninterp spec fn collection_families(bytes: Seq<u8>) -> Seq<(u32, Seq<Seq<char>>)>;

/// `fontdb::Database::load_font_data` on a fresh database, then `faces()`:
/// each face's index and family names. The list is named by
/// [`collection_families`] of the bytes. `fontdb` tries the faces
/// `0..fonts_in_collection(bytes).unwrap_or(1)` only, so every index is
/// below [`face_bound`]; nothing else is claimed of the list.
#[verifier::external_body]
fn faces_with_families(bytes: Vec<u8>) -> (r: Vec<(u32, Vec<String>)>)
    ensures
        r.deep_view() == collection_families(bytes@),
        forall|k: int| 0 <= k < r@.len() ==> (#[trigger] r@[k]).0 < face_bound(bytes@),
{
    let mut db = fontdb::Database::new();
    db.load_font_data(bytes);
    db.faces().map(|face| (face.index, face.families.iter().map(|(name, _)| name.clone()).collect())).collect()
}

/// The index of the first face whose family names include `family`.
pub open spec fn family_face(faces: Seq<(u32, Seq<Seq<char>>)>, family: Seq<char>) -> Option<u32>
    decreases faces.len(),
{
    if faces.len() == 0 {
        None
    } else if faces[0].1.contains(family) {
        Some(faces[0].0)
    } else {
        family_face(faces.drop_first(), family)
    }
}

proof fn lemma_family_face_skip(faces: Seq<(u32, Seq<Seq<char>>)>, family: Seq<char>, i: int)
    requires
        0 <= i <= faces.len(),
        forall|j: int| 0 <= j < i ==> !(#[trigger] faces[j]).1.contains(family),
    ensures
        family_face(faces, family) == family_face(faces.subrange(i, faces.len() as int), family),
    decreases i,
{
    if i == 0 {
        assert(faces.subrange(0, faces.len() as int) =~= faces);
    } else {
        assert(!faces[0].1.contains(family));
        lemma_family_face_skip(faces.drop_first(), family, i - 1);
        assert(faces.drop_first().subrange(i - 1, faces.drop_first().len() as int) =~= faces.subrange(i, faces.len() as int));
    }
}

/// The face of a collection that a `#Family Name` selector picks: the first
/// face listing that family.
pub fn face_index_for_family(faces: &Vec<(u32, Vec<String>)>, family: &str) -> (r: Option<u32>)
    ensures
        r == family_face(faces.deep_view(), family@),
        r matches Some(i) ==> exists|k: int| 0 <= k < faces@.len() && (#[trigger] faces@[k]).0 == i,
{
    let ghost fv = faces.deep_view();
    let mut i: usize = 0;
    while i < faces.len()
        invariant
            i <= faces@.len(),
            fv == faces.deep_view(),
            fv.len() == faces@.len(),
            forall|j: int| 0 <= j < i ==> !(#[trigger] fv[j]).1.contains(family@),
        decreases faces@.len() - i,
    {
        let names = &faces[i].1;
        assert(fv[i as int] == (faces@[i as int].0, names.deep_view()));
        let mut k: usize = 0;
        while k < names.len()
            invariant
                i < faces@.len(),
                fv == faces.deep_view(),
                fv.len() == faces@.len(),
                forall|j: int| 0 <= j < i ==> !(#[trigger] fv[j]).1.contains(family@),
                names.deep_view() == fv[i as int].1,
                *names == faces@[i as int].1,
                k <= names@.len(),
                names.deep_view().len() == names@.len(),
                forall|j: int| 0 <= j < k ==> names.deep_view()[j] != family@,
            decreases names@.len() - k,
        {
            assert(names.deep_view()[k as int] == names@[k as int]@);
            if str_eq(names[k].as_str(), family) {
                proof {
                    lemma_family_face_skip(fv, family@, i as int);
                    let sub = fv.subrange(i as int, fv.len() as int);
                    assert(sub[0] == fv[i as int]);
                    assert(sub[0].1.contains(family@)) by {
                        assert(sub[0].1[k as int] == family@);
                    }
                }
                return Some(faces[i].0);
            }
            k = k + 1;
        }
        assert(!fv[i as int].1.contains(family@)) by {
            if fv[i as int].1.contains(family@) {
                let j = choose|j: int| 0 <= j < fv[i as int].1.len() && fv[i as int].1[j] == family@;
                assert(names.deep_view()[j] != family@);
            }
        }
        i = i + 1;
    }
    proof {
        lemma_family_face_skip(fv, family@, fv.len() as int);
        assert(fv.subrange(fv.len() as int, fv.len() as int).len() == 0);
    }
    None
}

/// The face index a spec's selector picks in a font file. `None` when the
/// file is not an SFNT font, when an index is out of range, or when a family
/// is asked of a single font or no face of the collection lists it.
pub open spec fn selected_face_index(bytes: Seq<u8>, selector: Option<FaceSelectorView>) -> Option<u32> {
    if !is_sfnt_container_spec(bytes) {
        None
    } else {
        match selector {
            None => Some(0u32),
            Some(FaceSelectorView::Index(idx)) => {
                if idx >= face_bound(bytes) {
                    None
                } else {
                    Some(idx)
                }
            },
            Some(FaceSelectorView::Family(fam)) => {
                if is_sfnt_single_font_spec(bytes) {
                    None
                } else {
                    family_face(collection_families(bytes), fam)
                }
            },
        }
    }
}

pub open spec fn found_view(f: Option<(FontData, u32)>) -> Option<(Seq<u8>, u32)> {
    match f {
        Some(x) => Some((x.0@, x.1)),
        None => None,
    }
}

/// A found font is an SFNT font; its face index is `0` for a file that is
/// not a collection, and any other index lies below the collection's face
/// count.
pub open spec fn found_ok(f: Option<(Seq<u8>, u32)>) -> bool {
    match f {
        Some((d, i)) => is_sfnt_container_spec(d) && (!is_ttc_spec(d) ==> i == 0) && (i != 0 ==> i < face_bound(d)),
        None => true,
    }
}

/// What loading `spec` may give when `read_file` answers for its path.
pub open spec fn spec_loads<R: Fn(String) -> Option<FontData>>(
    spec: Seq<char>,
    read_file: R,
    r: Option<(Seq<u8>, u32)>,
) -> bool {
    exists|p: String, bytes: Option<FontData>|
        p@ == font_spec_parts(spec).0 && #[trigger] read_file.ensures((p,), bytes) && r == match bytes {
            None => None,
            Some(data) => match selected_face_index(data@, font_spec_parts(spec).1) {
                Some(i) => Some((data@, i)),
                None => None,
            },
        }
}

/// Load a font spec: read the file named by its path, check that it is an
/// SFNT font and pick the face its selector asks for; a family name is
/// looked up among the faces of the collection's own bytes.
pub fn load_font_spec<R>(spec: &str, read_file: R) -> (r: Option<(FontData, u32)>) where
    R: Fn(String) -> Option<FontData>,

    requires
        forall|p: String| read_file.requires((p,)),
    ensures
        spec_loads(spec@, read_file, found_view(r)),
        found_ok(found_view(r)),
{
    let parts = parse_font_spec(spec);
    let FontSpec { path, selector } = parts;
    let ghost p_ghost = path;
    let bytes = read_file(path);
    let data = match bytes {
        Some(d) => d,
        None => {
            return None;
        },
    };
    if !is_sfnt_container(data.as_slice()) {
        return None;
    }
    match selector {
        None => {
            assert(found_ok(Some((data@, 0u32))));
            Some((data, 0))
        },
        Some(FaceSelector::Index(idx)) => {
            let count = match fonts_in_collection(data.as_slice()) {
                Some(c) => c,
                None => 1,
            };
            if idx >= count {
                None
            } else {
                assert(count == face_bound(data@));
                assert(found_ok(Some((data@, idx))));
                Some((data, idx))
            }
        },
        Some(FaceSelector::Family(family)) => {
            if is_sfnt_single_font(data.as_slice()) {
                return None;
            }
            let copy = vstd::slice::slice_to_vec(data.as_slice());
            assert(copy@ == data@);
            let faces = faces_with_families(copy);
            let found = face_index_for_family(&faces, family.as_str());
            match found {
                Some(i) => {
                    proof {
                        let k = choose|k: int| 0 <= k < faces@.len() && (#[trigger] faces@[k]).0 == i;
                        assert(faces@[k].0 < face_bound(copy@));
                        assert(is_ttc_spec(data@));
                        assert(found_ok(Some((data@, i))));
                    }
                    Some((data, i))
                },
                None => None,
            }
        },
    }
}

// ---------------------------------------------------------------------------
// System font candidates
// ---------------------------------------------------------------------------

/// The file name of a path: what follows its last `/` or `\`.
pub open spec fn file_name_of(path: Seq<char>) -> Seq<char> {
    let a = last_index_of(path, '/');
    let b = last_index_of(path, '\\');
    let k = if a > b { a } else { b };
    path.subrange(k + 1, path.len() as int)
}

/// Whether a path's file name has the extension `ttc`, in any case: the
/// file name holds a `.` after its first character, and what follows the
/// last `.` is `ttc`.
pub open spec fn has_ttc_extension(path: Seq<char>) -> bool {
    let f = file_name_of(path);
    let k = last_index_of(f, '.');
    k > 0 && eq_ignore_ascii_case_spec(f.subrange(k + 1, f.len() as int), "ttc"@)
}

/// The font spec for a font file that system font lookup found under a
/// family name: a collection is named with `#family`, any other file by its
/// path alone.
pub open spec fn candidate_spec(path: Seq<char>, family: Seq<char>) -> Seq<char> {
    if has_ttc_extension(path) {
        path + "#"@ + family
    } else {
        path
    }
}

/// Position of the last `c` in `s`, or `None`.
fn last_position(s: &[char], c: char) -> (r: Option<usize>)
    ensures
        r is None ==> last_index_of(s@, c) == -1,
        r matches Some(k) ==> k == last_index_of(s@, c),
{
    let n = s.len();
    let mut k: usize = n;
    while k > 0 && s[k - 1] != c
        invariant
            k <= n == s@.len(),
            forall|j: int| k <= j < n ==> s@[j] != c,
        decreases k,
    {
        k = k - 1;
    }
    proof {
        lemma_last_index_of_suffix_free(s@, c, k as int);
    }
    if k == 0 {
        assert(s@.subrange(0, 0).len() == 0);
        None
    } else {
        proof {
            lemma_last_index_of_found(s@, c, k - 1);
        }
        Some(k - 1)
    }
}

/// Whether `path` names a `.ttc` file (see [`has_ttc_extension`]).
pub fn is_ttc_path(path: &str) -> (r: bool)
    ensures
        r == has_ttc_extension(path@),
{
    let c = chars_of(path);
    let n = c.len();
    proof {
        lemma_last_index_of_bounds(path@, '/');
        lemma_last_index_of_bounds(path@, '\\');
    }
    let start: usize = match (last_position(c.as_slice(), '/'), last_position(c.as_slice(), '\\')) {
        (None, None) => 0,
        (Some(x), None) => x + 1,
        (None, Some(y)) => y + 1,
        (Some(x), Some(y)) => if x > y {
            x + 1
        } else {
            y + 1
        },
    };
    let name = string_from_chars(c.as_slice(), start, n);
    let nc = chars_of(name.as_str());
    assert(nc@ == file_name_of(path@));
    proof {
        lemma_last_index_of_bounds(nc@, '.');
    }
    match last_position(nc.as_slice(), '.') {
        None => false,
        Some(k) => {
            if k == 0 {
                false
            } else {
                let ext = string_from_chars(nc.as_slice(), k + 1, nc.len());
                let ec = chars_of(ext.as_str());
                proof {
                    reveal_strlit("ttc");
                }
                eq_ignore_ascii_case(ec.as_slice(), "ttc")
            }
        },
    }
}

/// The font spec for a font file that system font lookup found under a
/// family name (see [`candidate_spec`]).
pub fn system_candidate_spec(path: &str, family: &str) -> (r: String)
    ensures
        r@ == candidate_spec(path@, family@),
{
    let mut r = String::new();
    r.append(path);
    if is_ttc_path(path) {
        r.append("#");
        r.append(family);
        proof {
            reveal_strlit("#");
        }
    }
    r
}

// ---------------------------------------------------------------------------
// Discovering system fonts
// ---------------------------------------------------------------------------

/// What trying the specs `cands` in order may give: the outcome of the first
/// one that loads a font, every earlier one having loaded nothing; or
/// nothing when none loads.
pub open spec fn first_loads<R: Fn(String) -> Option<FontData>>(
    cands: Seq<Seq<char>>,
    read_file: R,
    r: Option<(Seq<u8>, u32)>,
) -> bool {
    match r {
        Some(_) => exists|k: int|
            0 <= k < cands.len() && spec_loads(cands[k], read_file, r) && forall|j: int|
                0 <= j < k ==> #[trigger] spec_loads(cands[j], read_file, None),
        None => forall|k: int| 0 <= k < cands.len() ==> #[trigger] spec_loads(cands[k], read_file, None),
    }
}

pub open spec fn spec_views(v: Seq<String>) -> Seq<Seq<char>> {
    Seq::new(v.len(), |i: int| v[i]@)
}

/// Try font specs in order and keep the first that loads.
pub fn first_loading_spec<R>(candidates: &Vec<String>, read_file: R) -> (r: Option<(FontData, u32)>) where
    R: Fn(String) -> Option<FontData> + Copy,

    requires
        forall|p: String| read_file.requires((p,)),
    ensures
        first_loads(spec_views(candidates@), read_file, found_view(r)),
        found_ok(found_view(r)),
{
    let ghost cands = spec_views(candidates@);
    let mut i: usize = 0;
    while i < candidates.len()
        invariant
            i <= candidates@.len(),
            cands == spec_views(candidates@),
            forall|p: String| read_file.requires((p,)),
            forall|j: int| 0 <= j < i ==> #[trigger] spec_loads(cands[j], read_file, None),
        decreases candidates@.len() - i,
    {
        let found = load_font_spec(candidates[i].as_str(), read_file);
        assert(cands[i as int] == candidates@[i as int]@);
        if found.is_some() {
            return found;
        }
        i = i + 1;
    }
    None
}

/// The system Unicode font: the built-in candidate specs first, then the
/// candidates of the system font lookup (paths with their family names),
/// which is asked only when no built-in one loads.
pub fn discover_system_font<R, S>(builtin: &Vec<String>, system_candidates: S, read_file: R) -> (r: Option<
    (FontData, u32),
>) where R: Fn(String) -> Option<FontData> + Copy, S: FnOnce() -> Vec<(String, String)>
    requires
        forall|p: String| read_file.requires((p,)),
        system_candidates.requires(()),
    ensures
        found_ok(found_view(r)),
        (r is Some && first_loads(spec_views(builtin@), read_file, found_view(r))) || (
        first_loads(spec_views(builtin@), read_file, None) && exists|found: Vec<(String, String)>|
            #[trigger] system_candidates.ensures((), found) && first_loads(
                Seq::new(found@.len(), |i: int| candidate_spec(found@[i].0@, found@[i].1@)),
                read_file,
                found_view(r),
            )),
{
    let first = first_loading_spec(builtin, read_file);
    if first.is_some() {
        return first;
    }
    let found = system_candidates();
    let mut specs: Vec<String> = Vec::new();
    let mut i: usize = 0;
    while i < found.len()
        invariant
            i <= found@.len(),
            specs@.len() == i,
            forall|j: int| 0 <= j < i ==> (#[trigger] specs@[j])@ == candidate_spec(found@[j].0@, found@[j].1@),
        decreases found@.len() - i,
    {
        specs.push(system_candidate_spec(found[i].0.as_str(), found[i].1.as_str()));
        i = i + 1;
    }
    let r = first_loading_spec(&specs, read_file);
    assert(spec_views(specs@) =~= Seq::new(found@.len(), |i: int| candidate_spec(found@[i].0@, found@[i].1@)));
    r
}

/// A font that the system font database returned for a family is kept when
/// it is an SFNT font and its face index lies in the file.
pub open spec fn query_kept(q: Option<(Seq<u8>, u32)>) -> Option<(Seq<u8>, u32)> {
    if found_ok(q) {
        q
    } else {
        None
    }
}

/// The colour-emoji font: the direct candidate specs first, then what the
/// system font database finds for the emoji families (asked only when no
/// direct candidate loads), kept when it is an SFNT font whose face index
/// lies in the file.
pub fn discover_emoji_font<R, Q>(direct: &Vec<String>, query: Q, read_file: R) -> (r: Option<(FontData, u32)>) where
    R: Fn(String) -> Option<FontData> + Copy,
    Q: FnOnce() -> Option<(FontData, u32)>,

    requires
        forall|p: String| read_file.requires((p,)),
        query.requires(()),
    ensures
        found_ok(found_view(r)),
        (r is Some && first_loads(spec_views(direct@), read_file, found_view(r))) || (
        first_loads(spec_views(direct@), read_file, None) && exists|q: Option<(FontData, u32)>|
            #[trigger] query.ensures((), q) && found_view(r) == query_kept(found_view(q))),
{
    let first = first_loading_spec(direct, read_file);
    if first.is_some() {
        return first;
    }
    let q = query();
    match q {
        Some((data, index)) => {
            if !is_sfnt_container(data.as_slice()) {
                return None;
            }
            let bound = match fonts_in_collection(data.as_slice()) {
                Some(c) => c,
                None => 1,
            };
            let ttc = !is_sfnt_single_font(data.as_slice());
            if (ttc || index == 0) && (index == 0 || index < bound) {
                Some((data, index))
            } else {
                None
            }
        },
        None => None,
    }
}

// ---------------------------------------------------------------------------
// Process-wide discovery state
// ---------------------------------------------------------------------------

/// A discovered font role: `None` while not yet looked for, `Some(None)`
/// when nothing suitable was found, `Some(Some((bytes, face_index)))`
/// otherwise.
pub type FontSlot = Option<Option<(FontData, u32)>>;

pub type FontSlotView = Option<Option<(Seq<u8>, u32)>>;

pub open spec fn slot_view(s: FontSlot) -> FontSlotView {
    match s {
        Some(f) => Some(found_view(f)),
        None => None,
    }
}

/// The three discovery results, each computed at most once: the primary
/// Unicode font, the system-only fallback and the colour-emoji face.
pub struct FontDiscovery {
    unicode: FontSlot,
    system_fallback: FontSlot,
    emoji: FontSlot,
}

pub struct FontDiscoveryView {
    pub unicode: FontSlotView,
    pub system_fallback: FontSlotView,
    pub emoji: FontSlotView,
}

impl View for FontDiscovery {
    type V = FontDiscoveryView;

    closed spec fn view(&self) -> FontDiscoveryView {
        FontDiscoveryView {
            unicode: slot_view(self.unicode),
            system_fallback: slot_view(self.system_fallback),
            emoji: slot_view(self.emoji),
        }
    }
}

/// Every font the discovery state holds passes [`found_ok`].
pub open spec fn slots_ok(v: FontDiscoveryView) -> bool {
    &&& v.unicode matches Some(f) ==> found_ok(f)
    &&& v.system_fallback matches Some(f) ==> found_ok(f)
    &&& v.emoji matches Some(f) ==> found_ok(f)
}

/// Every outcome of a discovery closure passes [`found_ok`], as the
/// outcomes of [`load_font_spec`], [`discover_system_font`] and
/// [`discover_emoji_font`] do.
pub open spec fn gives_ok<D: FnOnce() -> Option<(FontData, u32)>>(discover: D) -> bool {
    forall|o: Option<(FontData, u32)>| #[trigger] discover.ensures((), o) ==> found_ok(found_view(o))
}

/// A slot resolved once: a filled slot is kept as it is; an empty one is
/// filled with what one call of `discover` returned. `r` is the slot's value.
pub open spec fn resolved_once<D: FnOnce() -> Option<(FontData, u32)>>(
    before: FontSlotView,
    after: FontSlotView,
    discover: D,
    r: Option<(Seq<u8>, u32)>,
) -> bool {
    &&& after == Some(r)
    &&& before is Some ==> after == before
    &&& before is None ==> exists|d: Option<(FontData, u32)>|
        #[trigger] discover.ensures((), d) && r == found_view(d)
}

/// One resolution of the primary Unicode font. When it is already known it
/// is returned unchanged. Otherwise the user override is tried first; when
/// it gives nothing, the primary shares the system fallback's result,
/// resolving that slot once if needed.
pub open spec fn unicode_resolved<
    E: FnOnce() -> Option<(FontData, u32)>,
    D: FnOnce() -> Option<(FontData, u32)>,
>(
    before: FontDiscoveryView,
    after: FontDiscoveryView,
    from_override: E,
    discover_system: D,
    r: Option<(Seq<u8>, u32)>,
) -> bool {
    if before.unicode is Some {
        after == before && r == before.unicode->0
    } else {
        &&& after.unicode == Some(r)
        &&& after.emoji == before.emoji
        &&& exists|e: Option<(FontData, u32)>|
            #[trigger] from_override.ensures((), e) && if e is Some {
                r == found_view(e) && after.system_fallback == before.system_fallback
            } else {
                resolved_once(before.system_fallback, after.system_fallback, discover_system, r)
            }
    }
}

/// One resolution of the system-only fallback; the other slots do not change.
pub open spec fn system_resolved<D: FnOnce() -> Option<(FontData, u32)>>(
    before: FontDiscoveryView,
    after: FontDiscoveryView,
    discover_system: D,
    r: Option<(Seq<u8>, u32)>,
) -> bool {
    &&& resolved_once(before.system_fallback, after.system_fallback, discover_system, r)
    &&& after.unicode == before.unicode
    &&& after.emoji == before.emoji
}

/// One resolution of the emoji face; the other slots do not change.
pub open spec fn emoji_resolved<D: FnOnce() -> Option<(FontData, u32)>>(
    before: FontDiscoveryView,
    after: FontDiscoveryView,
    discover_emoji: D,
    r: Option<(Seq<u8>, u32)>,
) -> bool {
    &&& resolved_once(before.emoji, after.emoji, discover_emoji, r)
    &&& after.unicode == before.unicode
    &&& after.system_fallback == before.system_fallback
}

pub open spec fn data_of(r: Option<(Seq<u8>, u32)>) -> Option<Seq<u8>> {
    match r {
        Some(x) => Some(x.0),
        None => None,
    }
}

pub open spec fn index_of(r: Option<(Seq<u8>, u32)>) -> Option<u32> {
    match r {
        Some(x) => Some(x.1),
        None => None,
    }
}

pub open spec fn data_view(d: Option<FontData>) -> Option<Seq<u8>> {
    match d {
        Some(x) => Some(x@),
        None => None,
    }
}

pub open spec fn arc_view(d: Option<Arc<Vec<u8>>>) -> Option<Seq<u8>> {
    match d {
        Some(x) => Some(x@),
        None => None,
    }
}

fn clone_found(f: &Option<(FontData, u32)>) -> (r: Option<(FontData, u32)>)
    ensures
        found_view(r) == found_view(*f),
{
    match f {
        Some((d, i)) => Some((d.clone(), *i)),
        None => None,
    }
}

fn data_part(f: Option<(FontData, u32)>) -> (r: Option<FontData>)
    ensures
        data_view(r) == data_of(found_view(f)),
{
    match f {
        Some((d, _)) => Some(d),
        None => None,
    }
}

fn index_part(f: Option<(FontData, u32)>) -> (r: Option<u32>)
    ensures
        r == index_of(found_view(f)),
{
    match f {
        Some((_, i)) => Some(i),
        None => None,
    }
}

fn arc_part(f: Option<(FontData, u32)>) -> (r: Option<Arc<Vec<u8>>>)
    ensures
        arc_view(r) == data_of(found_view(f)),
{
    match f {
        Some((d, _)) => Some(d.to_arc()),
        None => None,
    }
}

/// A discovery role is looked for at most once: once it holds a result,
/// resolving it again keeps that result and hands it back.
pub proof fn law_resolved_role_is_kept<D: FnOnce() -> Option<(FontData, u32)>>(
    before: FontSlotView,
    after: FontSlotView,
    discover: D,
    r: Option<(Seq<u8>, u32)>,
)
    requires
        resolved_once(before, after, discover, r),
        before is Some,
    ensures
        after == before,
        r == before->0,
{
}

/// The user override takes priority: when the primary font is first
/// resolved and the override finds a font, that font is the primary.
pub proof fn law_override_takes_priority<E: FnOnce() -> Option<(FontData, u32)>, D: FnOnce() -> Option<(FontData, u32)>>(
    before: FontDiscoveryView,
    after: FontDiscoveryView,
    from_override: E,
    discover_system: D,
    r: Option<(Seq<u8>, u32)>,
    found: (FontData, u32),
)
    requires
        unicode_resolved(before, after, from_override, discover_system, r),
        before.unicode is None,
        forall|o: Option<(FontData, u32)>| from_override.ensures((), o) ==> o == Some(found),
    ensures
        r == Some((found.0@, found.1)),
        after.unicode == Some(r),
        after.system_fallback == before.system_fallback,
{
}

/// Without an override the primary font is the system fallback itself: an
/// already resolved fallback is reused, not looked for again.
pub proof fn law_primary_shares_system_fallback<E: FnOnce() -> Option<(FontData, u32)>, D: FnOnce() -> Option<(FontData, u32)>>(
    before: FontDiscoveryView,
    after: FontDiscoveryView,
    from_override: E,
    discover_system: D,
    r: Option<(Seq<u8>, u32)>,
)
    requires
        unicode_resolved(before, after, from_override, discover_system, r),
        before.unicode is None,
        forall|o: Option<(FontData, u32)>| from_override.ensures((), o) ==> o is None,
    ensures
        after.system_fallback == Some(r),
        after.unicode == after.system_fallback,
        before.system_fallback is Some ==> after.system_fallback == before.system_fallback,
{
}

/// The secondary and emoji faces never depend on the primary slot, where the
/// user override goes: two discovery states with the same secondary (or
/// emoji) slot resolve it to the same font, whatever their primary slot
/// holds, as long as system discovery itself answers alike.
pub proof fn law_secondary_and_emoji_ignore_the_override<D: FnOnce() -> Option<(FontData, u32)>>(
    before1: FontDiscoveryView,
    after1: FontDiscoveryView,
    before2: FontDiscoveryView,
    after2: FontDiscoveryView,
    discover: D,
    r1: Option<(Seq<u8>, u32)>,
    r2: Option<(Seq<u8>, u32)>,
)
    requires
        forall|o1: Option<(FontData, u32)>, o2: Option<(FontData, u32)>|
            discover.ensures((), o1) && discover.ensures((), o2) ==> found_view(o1) == found_view(o2),
        (system_resolved(before1, after1, discover, r1) && system_resolved(before2, after2, discover, r2)
            && before1.system_fallback == before2.system_fallback)
        || (emoji_resolved(before1, after1, discover, r1) && emoji_resolved(before2, after2, discover, r2)
            && before1.emoji == before2.emoji),
    ensures
        r1 == r2,
{
}

impl FontDiscovery {
    /// Nothing looked for yet.
    pub fn new() -> (r: Self)
        ensures
            r@.unicode is None,
            r@.system_fallback is None,
            r@.emoji is None,
            slots_ok(r@),
    {
        FontDiscovery { unicode: None, system_fallback: None, emoji: None }
    }

    fn system_fallback_font<D>(&mut self, discover_system: D) -> (r: Option<(FontData, u32)>) where
        D: FnOnce() -> Option<(FontData, u32)>,

        requires
            discover_system.requires(()),
        ensures
            system_resolved(old(self)@, final(self)@, discover_system, found_view(r)),
            slots_ok(old(self)@) && gives_ok(discover_system) ==> slots_ok(final(self)@) && found_ok(found_view(r)),
    {
        match &self.system_fallback {
            Some(found) => clone_found(found),
            None => {
                let found = discover_system();
                let kept = clone_found(&found);
                self.system_fallback = Some(kept);
                found
            },
        }
    }

    fn unicode_font<E, D>(&mut self, from_override: E, discover_system: D) -> (r: Option<
        (FontData, u32),
    >) where E: FnOnce() -> Option<(FontData, u32)>, D: FnOnce() -> Option<(FontData, u32)>
        requires
            from_override.requires(()),
            discover_system.requires(()),
        ensures
            unicode_resolved(old(self)@, final(self)@, from_override, discover_system, found_view(r)),
            slots_ok(old(self)@) && gives_ok(from_override) && gives_ok(discover_system) ==> slots_ok(final(self)@)
                && found_ok(found_view(r)),
    {
        match &self.unicode {
            Some(found) => clone_found(found),
            None => {
                let user = from_override();
                let found = match user {
                    Some(f) => Some(f),
                    None => self.system_fallback_font(discover_system),
                };
                let kept = clone_found(&found);
                self.unicode = Some(kept);
                found
            },
        }
    }

    fn emoji_font<D>(&mut self, discover_emoji: D) -> (r: Option<(FontData, u32)>) where
        D: FnOnce() -> Option<(FontData, u32)>,

        requires
            discover_emoji.requires(()),
        ensures
            emoji_resolved(old(self)@, final(self)@, discover_emoji, found_view(r)),
            slots_ok(old(self)@) && gives_ok(discover_emoji) ==> slots_ok(final(self)@) && found_ok(found_view(r)),
    {
        match &self.emoji {
            Some(found) => clone_found(found),
            None => {
                let found = discover_emoji();
                let kept = clone_found(&found);
                self.emoji = Some(kept);
                found
            },
        }
    }
}

/// Bytes of the primary Unicode font: the user override when it loads,
/// otherwise the system fallback. Looked for at most once.
pub fn load_unicode_font_data<E, D>(
    discovery: &mut FontDiscovery,
    from_override: E,
    discover_system: D,
) -> (r: Option<FontData>) where
    E: FnOnce() -> Option<(FontData, u32)>,
    D: FnOnce() -> Option<(FontData, u32)>,

    requires
        from_override.requires(()),
        discover_system.requires(()),
    ensures
        exists|f: Option<(Seq<u8>, u32)>|
            unicode_resolved(old(discovery)@, final(discovery)@, from_override, discover_system, f)
                && data_view(r) == data_of(f) && (slots_ok(old(discovery)@) && gives_ok(from_override) && gives_ok(discover_system) ==> found_ok(f)),
        slots_ok(old(discovery)@) && gives_ok(from_override) && gives_ok(discover_system) ==> slots_ok(final(discovery)@),
{
    let f = discovery.unicode_font(from_override, discover_system);
    data_part(f)
}

/// Handle on the primary Unicode font held by the discovery state.
pub fn unicode_font_data_ref<E, D>(
    discovery: &mut FontDiscovery,
    from_override: E,
    discover_system: D,
) -> (r: Option<FontData>) where
    E: FnOnce() -> Option<(FontData, u32)>,
    D: FnOnce() -> Option<(FontData, u32)>,

    requires
        from_override.requires(()),
        discover_system.requires(()),
    ensures
        exists|f: Option<(Seq<u8>, u32)>|
            unicode_resolved(old(discovery)@, final(discovery)@, from_override, discover_system, f)
                && data_view(r) == data_of(f) && (slots_ok(old(discovery)@) && gives_ok(from_override) && gives_ok(discover_system) ==> found_ok(f)),
        slots_ok(old(discovery)@) && gives_ok(from_override) && gives_ok(discover_system) ==> slots_ok(final(discovery)@),
{
    load_unicode_font_data(discovery, from_override, discover_system)
}

/// Collection face index of the primary Unicode font (`0` for a single font).
pub fn unicode_font_face_index<E, D>(
    discovery: &mut FontDiscovery,
    from_override: E,
    discover_system: D,
) -> (r: Option<u32>) where
    E: FnOnce() -> Option<(FontData, u32)>,
    D: FnOnce() -> Option<(FontData, u32)>,

    requires
        from_override.requires(()),
        discover_system.requires(()),
    ensures
        exists|f: Option<(Seq<u8>, u32)>|
            unicode_resolved(old(discovery)@, final(discovery)@, from_override, discover_system, f)
                && r == index_of(f) && (slots_ok(old(discovery)@) && gives_ok(from_override) && gives_ok(discover_system) ==> found_ok(f)),
        slots_ok(old(discovery)@) && gives_ok(from_override) && gives_ok(discover_system) ==> slots_ok(final(discovery)@),
{
    let f = discovery.unicode_font(from_override, discover_system);
    index_part(f)
}

/// The primary Unicode font's bytes as the shared buffer.
pub fn load_unicode_font_arc<E, D>(
    discovery: &mut FontDiscovery,
    from_override: E,
    discover_system: D,
) -> (r: Option<Arc<Vec<u8>>>) where
    E: FnOnce() -> Option<(FontData, u32)>,
    D: FnOnce() -> Option<(FontData, u32)>,

    requires
        from_override.requires(()),
        discover_system.requires(()),
    ensures
        exists|f: Option<(Seq<u8>, u32)>|
            unicode_resolved(old(discovery)@, final(discovery)@, from_override, discover_system, f)
                && arc_view(r) == data_of(f) && (slots_ok(old(discovery)@) && gives_ok(from_override) && gives_ok(discover_system) ==> found_ok(f)),
        slots_ok(old(discovery)@) && gives_ok(from_override) && gives_ok(discover_system) ==> slots_ok(final(discovery)@),
{
    let f = discovery.unicode_font(from_override, discover_system);
    arc_part(f)
}

/// Bytes of the system fallback font; the user override is never consulted.
pub fn load_fallback_font_data<D>(discovery: &mut FontDiscovery, discover_system: D) -> (r: Option<
    FontData,
>) where D: FnOnce() -> Option<(FontData, u32)>
    requires
        discover_system.requires(()),
    ensures
        exists|f: Option<(Seq<u8>, u32)>|
            system_resolved(old(discovery)@, final(discovery)@, discover_system, f) && data_view(r)
                == data_of(f) && (slots_ok(old(discovery)@) && gives_ok(discover_system) ==> found_ok(f)),
        slots_ok(old(discovery)@) && gives_ok(discover_system) ==> slots_ok(final(discovery)@),
{
    let f = discovery.system_fallback_font(discover_system);
    data_part(f)
}

/// Handle on the system fallback font held by the discovery state.
pub fn fallback_font_data_ref<D>(discovery: &mut FontDiscovery, discover_system: D) -> (r: Option<
    FontData,
>) where D: FnOnce() -> Option<(FontData, u32)>
    requires
        discover_system.requires(()),
    ensures
        exists|f: Option<(Seq<u8>, u32)>|
            system_resolved(old(discovery)@, final(discovery)@, discover_system, f) && data_view(r)
                == data_of(f) && (slots_ok(old(discovery)@) && gives_ok(discover_system) ==> found_ok(f)),
        slots_ok(old(discovery)@) && gives_ok(discover_system) ==> slots_ok(final(discovery)@),
{
    load_fallback_font_data(discovery, discover_system)
}

/// Collection face index of the system fallback font.
pub fn fallback_font_face_index<D>(discovery: &mut FontDiscovery, discover_system: D) -> (r: Option<
    u32,
>) where D: FnOnce() -> Option<(FontData, u32)>
    requires
        discover_system.requires(()),
    ensures
        exists|f: Option<(Seq<u8>, u32)>|
            system_resolved(old(discovery)@, final(discovery)@, discover_system, f) && r
                == index_of(f) && (slots_ok(old(discovery)@) && gives_ok(discover_system) ==> found_ok(f)),
        slots_ok(old(discovery)@) && gives_ok(discover_system) ==> slots_ok(final(discovery)@),
{
    let f = discovery.system_fallback_font(discover_system);
    index_part(f)
}

/// The system fallback font's bytes as the shared buffer.
pub fn load_fallback_font_arc<D>(discovery: &mut FontDiscovery, discover_system: D) -> (r: Option<
    Arc<Vec<u8>>,
>) where D: FnOnce() -> Option<(FontData, u32)>
    requires
        discover_system.requires(()),
    ensures
        exists|f: Option<(Seq<u8>, u32)>|
            system_resolved(old(discovery)@, final(discovery)@, discover_system, f) && arc_view(r)
                == data_of(f) && (slots_ok(old(discovery)@) && gives_ok(discover_system) ==> found_ok(f)),
        slots_ok(old(discovery)@) && gives_ok(discover_system) ==> slots_ok(final(discovery)@),
{
    let f = discovery.system_fallback_font(discover_system);
    arc_part(f)
}

/// Bytes of the system colour-emoji font.
pub fn load_emoji_font_data<D>(discovery: &mut FontDiscovery, discover_emoji: D) -> (r: Option<
    FontData,
>) where D: FnOnce() -> Option<(FontData, u32)>
    requires
        discover_emoji.requires(()),
    ensures
        exists|f: Option<(Seq<u8>, u32)>|
            emoji_resolved(old(discovery)@, final(discovery)@, discover_emoji, f) && data_view(r)
                == data_of(f) && (slots_ok(old(discovery)@) && gives_ok(discover_emoji) ==> found_ok(f)),
        slots_ok(old(discovery)@) && gives_ok(discover_emoji) ==> slots_ok(final(discovery)@),
{
    let f = discovery.emoji_font(discover_emoji);
    data_part(f)
}

/// Handle on the colour-emoji font held by the discovery state.
pub fn emoji_font_data_ref<D>(discovery: &mut FontDiscovery, discover_emoji: D) -> (r: Option<
    FontData,
>) where D: FnOnce() -> Option<(FontData, u32)>
    requires
        discover_emoji.requires(()),
    ensures
        exists|f: Option<(Seq<u8>, u32)>|
            emoji_resolved(old(discovery)@, final(discovery)@, discover_emoji, f) && data_view(r)
                == data_of(f) && (slots_ok(old(discovery)@) && gives_ok(discover_emoji) ==> found_ok(f)),
        slots_ok(old(discovery)@) && gives_ok(discover_emoji) ==> slots_ok(final(discovery)@),
{
    load_emoji_font_data(discovery, discover_emoji)
}

/// Collection face index of the colour-emoji font.
pub fn emoji_font_face_index<D>(discovery: &mut FontDiscovery, discover_emoji: D) -> (r: Option<
    u32,
>) where D: FnOnce() -> Option<(FontData, u32)>
    requires
        discover_emoji.requires(()),
    ensures
        exists|f: Option<(Seq<u8>, u32)>|
            emoji_resolved(old(discovery)@, final(discovery)@, discover_emoji, f) && r == index_of(
                f,
            ) && (slots_ok(old(discovery)@) && gives_ok(discover_emoji) ==> found_ok(f)),
        slots_ok(old(discovery)@) && gives_ok(discover_emoji) ==> slots_ok(final(discovery)@),
{
    let f = discovery.emoji_font(discover_emoji);
    index_part(f)
}

/// The colour-emoji font's bytes as the shared buffer.
pub fn load_emoji_font_arc<D>(discovery: &mut FontDiscovery, discover_emoji: D) -> (r: Option<
    Arc<Vec<u8>>,
>) where D: FnOnce() -> Option<(FontData, u32)>
    requires
        discover_emoji.requires(()),
    ensures
        exists|f: Option<(Seq<u8>, u32)>|
            emoji_resolved(old(discovery)@, final(discovery)@, discover_emoji, f) && arc_view(r)
                == data_of(f) && (slots_ok(old(discovery)@) && gives_ok(discover_emoji) ==> found_ok(f)),
        slots_ok(old(discovery)@) && gives_ok(discover_emoji) ==> slots_ok(final(discovery)@),
{
    let f = discovery.emoji_font(discover_emoji);
    arc_part(f)
}


} // verus!
