//! Identifiers of the fonts a display list can name: the KaTeX faces plus the
//! system Unicode, fallback and emoji faces.

use vstd::prelude::*;

use crate::text::str_eq;

verus! {

/// One font face that glyphs can be drawn from.
#[derive(Clone, Copy, Debug, PartialEq, Eq, Hash, Structural)]
pub enum FontId {
    MainRegular,
    MainBold,
    MainItalic,
    MainBoldItalic,
    MathItalic,
    MathBoldItalic,
    AmsRegular,
    CaligraphicRegular,
    FrakturRegular,
    FrakturBold,
    SansSerifRegular,
    SansSerifBold,
    SansSerifItalic,
    ScriptRegular,
    TypewriterRegular,
    Size1Regular,
    Size2Regular,
    Size3Regular,
    Size4Regular,
    CjkRegular,
    CjkFallback,
    EmojiFallback,
}

/// Number of font identifiers.
pub const FONT_ID_COUNT: usize = 22;

/// The name a display list uses for `id` (e.g. `Main-Regular`).
pub open spec fn font_id_name(id: FontId) -> Seq<char> {
    match id {
        FontId::MainRegular => "Main-Regular"@,
        FontId::MainBold => "Main-Bold"@,
        FontId::MainItalic => "Main-Italic"@,
        FontId::MainBoldItalic => "Main-BoldItalic"@,
        FontId::MathItalic => "Math-Italic"@,
        FontId::MathBoldItalic => "Math-BoldItalic"@,
        FontId::AmsRegular => "AMS-Regular"@,
        FontId::CaligraphicRegular => "Caligraphic-Regular"@,
        FontId::FrakturRegular => "Fraktur-Regular"@,
        FontId::FrakturBold => "Fraktur-Bold"@,
        FontId::SansSerifRegular => "SansSerif-Regular"@,
        FontId::SansSerifBold => "SansSerif-Bold"@,
        FontId::SansSerifItalic => "SansSerif-Italic"@,
        FontId::ScriptRegular => "Script-Regular"@,
        FontId::TypewriterRegular => "Typewriter-Regular"@,
        FontId::Size1Regular => "Size1-Regular"@,
        FontId::Size2Regular => "Size2-Regular"@,
        FontId::Size3Regular => "Size3-Regular"@,
        FontId::Size4Regular => "Size4-Regular"@,
        FontId::CjkRegular => "CJK-Regular"@,
        FontId::CjkFallback => "CJK-Fallback"@,
        FontId::EmojiFallback => "Emoji-Fallback"@,
    }
}

/// Position of `id` in the fixed enumeration order.
pub open spec fn font_id_index(id: FontId) -> int {
    match id {
        FontId::MainRegular => 0,
        FontId::MainBold => 1,
        FontId::MainItalic => 2,
        FontId::MainBoldItalic => 3,
        FontId::MathItalic => 4,
        FontId::MathBoldItalic => 5,
        FontId::AmsRegular => 6,
        FontId::CaligraphicRegular => 7,
        FontId::FrakturRegular => 8,
        FontId::FrakturBold => 9,
        FontId::SansSerifRegular => 10,
        FontId::SansSerifBold => 11,
        FontId::SansSerifItalic => 12,
        FontId::ScriptRegular => 13,
        FontId::TypewriterRegular => 14,
        FontId::Size1Regular => 15,
        FontId::Size2Regular => 16,
        FontId::Size3Regular => 17,
        FontId::Size4Regular => 18,
        FontId::CjkRegular => 19,
        FontId::CjkFallback => 20,
        FontId::EmojiFallback => 21,
    }
}

/// The identifier at position `i` of the enumeration order.
pub open spec fn font_id_at(i: int) -> FontId {
    if i == 0 {
        FontId::MainRegular
    } else if i == 1 {
        FontId::MainBold
    } else if i == 2 {
        FontId::MainItalic
    } else if i == 3 {
        FontId::MainBoldItalic
    } else if i == 4 {
        FontId::MathItalic
    } else if i == 5 {
        FontId::MathBoldItalic
    } else if i == 6 {
        FontId::AmsRegular
    } else if i == 7 {
        FontId::CaligraphicRegular
    } else if i == 8 {
        FontId::FrakturRegular
    } else if i == 9 {
        FontId::FrakturBold
    } else if i == 10 {
        FontId::SansSerifRegular
    } else if i == 11 {
        FontId::SansSerifBold
    } else if i == 12 {
        FontId::SansSerifItalic
    } else if i == 13 {
        FontId::ScriptRegular
    } else if i == 14 {
        FontId::TypewriterRegular
    } else if i == 15 {
        FontId::Size1Regular
    } else if i == 16 {
        FontId::Size2Regular
    } else if i == 17 {
        FontId::Size3Regular
    } else if i == 18 {
        FontId::Size4Regular
    } else if i == 19 {
        FontId::CjkRegular
    } else if i == 20 {
        FontId::CjkFallback
    } else {
        FontId::EmojiFallback
    }
}

pub proof fn lemma_font_id_index(id: FontId)
    ensures
        0 <= font_id_index(id) < FONT_ID_COUNT,
        font_id_at(font_id_index(id)) == id,
{
}

pub proof fn lemma_font_id_at(i: int)
    requires
        0 <= i < FONT_ID_COUNT,
    ensures
        font_id_index(font_id_at(i)) == i,
{
}

/// Distinct identifiers have distinct names.
pub proof fn lemma_font_id_names_distinct(a: FontId, b: FontId)
    ensures
        font_id_name(a) == font_id_name(b) ==> a == b,
{
        reveal_strlit("Main-Regular");
        reveal_strlit("Main-Bold");
        reveal_strlit("Main-Italic");
        reveal_strlit("Main-BoldItalic");
        reveal_strlit("Math-Italic");
        reveal_strlit("Math-BoldItalic");
        reveal_strlit("AMS-Regular");
        reveal_strlit("Caligraphic-Regular");
        reveal_strlit("Fraktur-Regular");
        reveal_strlit("Fraktur-Bold");
        reveal_strlit("SansSerif-Regular");
        reveal_strlit("SansSerif-Bold");
        reveal_strlit("SansSerif-Italic");
        reveal_strlit("Script-Regular");
        reveal_strlit("Typewriter-Regular");
        reveal_strlit("Size1-Regular");
        reveal_strlit("Size2-Regular");
        reveal_strlit("Size3-Regular");
        reveal_strlit("Size4-Regular");
        reveal_strlit("CJK-Regular");
        reveal_strlit("CJK-Fallback");
        reveal_strlit("Emoji-Fallback");
    assert(font_id_name(a) == font_id_name(b) ==> font_id_index(a) == font_id_index(b)) by {
        if font_id_name(a) == font_id_name(b) {
            assert(font_id_name(a).len() == font_id_name(b).len());
            assert(font_id_name(a)[0] == font_id_name(b)[0]);
            assert(font_id_name(a)[1] == font_id_name(b)[1]);
            assert(font_id_name(a)[3] == font_id_name(b)[3]);
            assert(font_id_name(a)[4] == font_id_name(b)[4]);
            assert(font_id_name(a)[5] == font_id_name(b)[5]);
            assert(font_id_name(a)[6] == font_id_name(b)[6]);
            assert(font_id_name(a)[9] == font_id_name(b)[9]);
            assert(font_id_name(a)[10] == font_id_name(b)[10]);
        }
    }
}

impl FontId {
    /// The name a display list uses for this font.
    pub fn as_str(&self) -> (r: &'static str)
        ensures
            r@ == font_id_name(*self),
    {
        match self {
            FontId::MainRegular => "Main-Regular",
            FontId::MainBold => "Main-Bold",
            FontId::MainItalic => "Main-Italic",
            FontId::MainBoldItalic => "Main-BoldItalic",
            FontId::MathItalic => "Math-Italic",
            FontId::MathBoldItalic => "Math-BoldItalic",
            FontId::AmsRegular => "AMS-Regular",
            FontId::CaligraphicRegular => "Caligraphic-Regular",
            FontId::FrakturRegular => "Fraktur-Regular",
            FontId::FrakturBold => "Fraktur-Bold",
            FontId::SansSerifRegular => "SansSerif-Regular",
            FontId::SansSerifBold => "SansSerif-Bold",
            FontId::SansSerifItalic => "SansSerif-Italic",
            FontId::ScriptRegular => "Script-Regular",
            FontId::TypewriterRegular => "Typewriter-Regular",
            FontId::Size1Regular => "Size1-Regular",
            FontId::Size2Regular => "Size2-Regular",
            FontId::Size3Regular => "Size3-Regular",
            FontId::Size4Regular => "Size4-Regular",
            FontId::CjkRegular => "CJK-Regular",
            FontId::CjkFallback => "CJK-Fallback",
            FontId::EmojiFallback => "Emoji-Fallback",
        }
    }

    pub fn index(&self) -> (r: usize)
        ensures
            r == font_id_index(*self),
            r < FONT_ID_COUNT,
    {
        match self {
            FontId::MainRegular => 0,
            FontId::MainBold => 1,
            FontId::MainItalic => 2,
            FontId::MainBoldItalic => 3,
            FontId::MathItalic => 4,
            FontId::MathBoldItalic => 5,
            FontId::AmsRegular => 6,
            FontId::CaligraphicRegular => 7,
            FontId::FrakturRegular => 8,
            FontId::FrakturBold => 9,
            FontId::SansSerifRegular => 10,
            FontId::SansSerifBold => 11,
            FontId::SansSerifItalic => 12,
            FontId::ScriptRegular => 13,
            FontId::TypewriterRegular => 14,
            FontId::Size1Regular => 15,
            FontId::Size2Regular => 16,
            FontId::Size3Regular => 17,
            FontId::Size4Regular => 18,
            FontId::CjkRegular => 19,
            FontId::CjkFallback => 20,
            FontId::EmojiFallback => 21,
        }
    }

    pub fn from_index(i: usize) -> (r: FontId)
        requires
            i < FONT_ID_COUNT,
        ensures
            r == font_id_at(i as int),
    {
        match i {
            0 => FontId::MainRegular,
            1 => FontId::MainBold,
            2 => FontId::MainItalic,
            3 => FontId::MainBoldItalic,
            4 => FontId::MathItalic,
            5 => FontId::MathBoldItalic,
            6 => FontId::AmsRegular,
            7 => FontId::CaligraphicRegular,
            8 => FontId::FrakturRegular,
            9 => FontId::FrakturBold,
            10 => FontId::SansSerifRegular,
            11 => FontId::SansSerifBold,
            12 => FontId::SansSerifItalic,
            13 => FontId::ScriptRegular,
            14 => FontId::TypewriterRegular,
            15 => FontId::Size1Regular,
            16 => FontId::Size2Regular,
            17 => FontId::Size3Regular,
            18 => FontId::Size4Regular,
            19 => FontId::CjkRegular,
            20 => FontId::CjkFallback,
            _ => FontId::EmojiFallback,
        }
    }

    /// The font whose name is `name`, if any.
    pub fn parse(name: &str) -> (r: Option<FontId>)
        ensures
            r matches Some(id) ==> font_id_name(id) == name@,
            r is None ==> forall|id: FontId| font_id_name(id) != name@,
    {
        let mut i: usize = 0;
        while i < FONT_ID_COUNT
            invariant
                i <= FONT_ID_COUNT,
                forall|j: int| 0 <= j < i ==> font_id_name(#[trigger] font_id_at(j)) != name@,
            decreases FONT_ID_COUNT - i,
        {
            let id = FontId::from_index(i);
            if str_eq(id.as_str(), name) {
                return Some(id);
            }
            i = i + 1;
        }
        assert forall|id: FontId| font_id_name(id) != name@ by {
            lemma_font_id_index(id);
            assert(font_id_name(font_id_at(font_id_index(id))) != name@);
        }
        None
    }
}

/// Reading back a font's name gives the same font.
pub proof fn law_font_id_name_round_trip(id: FontId, name: Seq<char>)
    requires
        name == font_id_name(id),
    ensures
        forall|other: FontId| font_id_name(other) == name ==> other == id,
{
    assert forall|other: FontId| font_id_name(other) == name implies other == id by {
        lemma_font_id_names_distinct(other, id);
    }
}

} // verus!
