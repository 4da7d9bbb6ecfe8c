//! Text pieces of the SVG serializer: paint syntax, XML escaping of glyph
//! text, and the KaTeX CSS face of each font.

use vstd::prelude::*;

use crate::font_id::{font_id_name, FontId};
use crate::text::push_char;

verus! {

/// SVG paint color syntax.
#[derive(Clone, Copy, Debug, PartialEq, Eq, Structural)]
#[non_exhaustive]
pub enum SvgColorSyntax {
    /// Emit paint values as `rgba(r,g,b,a)`.
    Rgba,
    /// Emit paint values as `rgb(r,g,b)` and preserve alpha with opacity attributes.
    Rgb,
}

impl Default for SvgColorSyntax {
    fn default() -> (r: Self)
        ensures
            r == SvgColorSyntax::Rgba,
    {
        SvgColorSyntax::Rgba
    }
}

/// The XML text for `c`: `&`, `<`, `>` and `"` as entity references, any
/// other character as itself.
pub open spec fn escaped_char(c: char) -> Seq<char> {
    if c == '&' {
        "&amp;"@
    } else if c == '<' {
        "&lt;"@
    } else if c == '>' {
        "&gt;"@
    } else if c == '"' {
        "&quot;"@
    } else {
        seq![c]
    }
}

/// Append `ch` to XML text, escaped.
pub fn push_escaped_char(out: &mut String, ch: char)
    ensures
        final(out)@ == old(out)@ + escaped_char(ch),
{
    if ch == '&' {
        out.append("&amp;");
    } else if ch == '<' {
        out.append("&lt;");
    } else if ch == '>' {
        out.append("&gt;");
    } else if ch == '"' {
        out.append("&quot;");
    } else {
        push_char(out, ch);
        assert(out@ =~= old(out)@ + seq![ch]);
    }
}

/// The stack of emoji families tried by SVG `<text>` fallback.
pub open spec fn emoji_family() -> Seq<char> {
    "Apple Color Emoji, \"Segoe UI Emoji\", \"Noto Color Emoji\", sans-serif"@
}

/// The CSS `(font-family, font-weight, font-style)` of a font.
pub open spec fn face_of(id: FontId) -> (Seq<char>, Seq<char>, Seq<char>) {
    match id {
        FontId::MainRegular => ("KaTeX_Main"@, "normal"@, "normal"@),
        FontId::MainBold => ("KaTeX_Main"@, "bold"@, "normal"@),
        FontId::MainItalic => ("KaTeX_Main"@, "normal"@, "italic"@),
        FontId::MainBoldItalic => ("KaTeX_Main"@, "bold"@, "italic"@),
        FontId::MathItalic => ("KaTeX_Math"@, "normal"@, "italic"@),
        FontId::MathBoldItalic => ("KaTeX_Math"@, "bold"@, "italic"@),
        FontId::AmsRegular => ("KaTeX_AMS"@, "normal"@, "normal"@),
        FontId::CaligraphicRegular => ("KaTeX_Caligraphic"@, "normal"@, "normal"@),
        FontId::FrakturRegular => ("KaTeX_Fraktur"@, "normal"@, "normal"@),
        FontId::FrakturBold => ("KaTeX_Fraktur"@, "bold"@, "normal"@),
        FontId::SansSerifRegular => ("KaTeX_SansSerif"@, "normal"@, "normal"@),
        FontId::SansSerifBold => ("KaTeX_SansSerif"@, "bold"@, "normal"@),
        FontId::SansSerifItalic => ("KaTeX_SansSerif"@, "normal"@, "italic"@),
        FontId::ScriptRegular => ("KaTeX_Script"@, "normal"@, "normal"@),
        FontId::TypewriterRegular => ("KaTeX_Typewriter"@, "normal"@, "normal"@),
        FontId::Size1Regular => ("KaTeX_Size1"@, "normal"@, "normal"@),
        FontId::Size2Regular => ("KaTeX_Size2"@, "normal"@, "normal"@),
        FontId::Size3Regular => ("KaTeX_Size3"@, "normal"@, "normal"@),
        FontId::Size4Regular => ("KaTeX_Size4"@, "normal"@, "normal"@),
        FontId::CjkRegular => ("sans-serif"@, "normal"@, "normal"@),
        FontId::CjkFallback => ("sans-serif"@, "normal"@, "normal"@),
        FontId::EmojiFallback => (emoji_family(), "normal"@, "normal"@),
    }
}

/// The face of the font named `font`; unknown names get KaTeX_Main upright.
pub open spec fn katex_face_spec(font: Seq<char>) -> (Seq<char>, Seq<char>, Seq<char>) {
    if exists|id: FontId| font_id_name(id) == font {
        face_of(choose|id: FontId| font_id_name(id) == font)
    } else {
        ("KaTeX_Main"@, "normal"@, "normal"@)
    }
}

fn face_of_id(id: FontId) -> (r: (&'static str, &'static str, &'static str))
    ensures
        (r.0@, r.1@, r.2@) == face_of(id),
{
    match id {
        FontId::MainRegular => ("KaTeX_Main", "normal", "normal"),
        FontId::MainBold => ("KaTeX_Main", "bold", "normal"),
        FontId::MainItalic => ("KaTeX_Main", "normal", "italic"),
        FontId::MainBoldItalic => ("KaTeX_Main", "bold", "italic"),
        FontId::MathItalic => ("KaTeX_Math", "normal", "italic"),
        FontId::MathBoldItalic => ("KaTeX_Math", "bold", "italic"),
        FontId::AmsRegular => ("KaTeX_AMS", "normal", "normal"),
        FontId::CaligraphicRegular => ("KaTeX_Caligraphic", "normal", "normal"),
        FontId::FrakturRegular => ("KaTeX_Fraktur", "normal", "normal"),
        FontId::FrakturBold => ("KaTeX_Fraktur", "bold", "normal"),
        FontId::SansSerifRegular => ("KaTeX_SansSerif", "normal", "normal"),
        FontId::SansSerifBold => ("KaTeX_SansSerif", "bold", "normal"),
        FontId::SansSerifItalic => ("KaTeX_SansSerif", "normal", "italic"),
        FontId::ScriptRegular => ("KaTeX_Script", "normal", "normal"),
        FontId::TypewriterRegular => ("KaTeX_Typewriter", "normal", "normal"),
        FontId::Size1Regular => ("KaTeX_Size1", "normal", "normal"),
        FontId::Size2Regular => ("KaTeX_Size2", "normal", "normal"),
        FontId::Size3Regular => ("KaTeX_Size3", "normal", "normal"),
        FontId::Size4Regular => ("KaTeX_Size4", "normal", "normal"),
        FontId::CjkRegular => ("sans-serif", "normal", "normal"),
        FontId::CjkFallback => ("sans-serif", "normal", "normal"),
        FontId::EmojiFallback => ("Apple Color Emoji, \"Segoe UI Emoji\", \"Noto Color Emoji\", sans-serif", "normal", "normal"),
    }
}

/// KaTeX CSS `font-family`, `font-weight` and `font-style` for a font name
/// of the display list (e.g. `Main-Regular`).
pub fn katex_face(font: &str) -> (r: (&'static str, &'static str, &'static str))
    ensures
        (r.0@, r.1@, r.2@) == katex_face_spec(font@),
{
    match FontId::parse(font) {
        Some(id) => {
            proof {
                crate::font_id::law_font_id_name_round_trip(id, font@);
            }
            face_of_id(id)
        },
        None => ("KaTeX_Main", "normal", "normal"),
    }
}

/// The name ends in `Italic`.
pub open spec fn ends_in_italic(n: Seq<char>) -> bool {
    let l = n.len() as int;
    l >= 6 && n[l - 6] == 'I' && n[l - 5] == 't' && n[l - 4] == 'a' && n[l - 3] == 'l' && n[l - 2] == 'i' && n[l - 1] == 'c'
}

/// The name ends in `Bold`.
pub open spec fn ends_in_bold(n: Seq<char>) -> bool {
    let l = n.len() as int;
    l >= 4 && n[l - 4] == 'B' && n[l - 3] == 'o' && n[l - 2] == 'l' && n[l - 1] == 'd'
}

/// The name ends in `BoldItalic`.
pub open spec fn ends_in_bold_italic(n: Seq<char>) -> bool {
    let l = n.len() as int;
    ends_in_italic(n) && l >= 10 && n[l - 10] == 'B' && n[l - 9] == 'o' && n[l - 8] == 'l' && n[l - 7] == 'd'
}

proof fn lemma_face_of_follows_the_style_suffix(id: FontId)
    ensures
        (face_of(id).2 == "italic"@) == ends_in_italic(font_id_name(id)),
        !ends_in_italic(font_id_name(id)) ==> face_of(id).2 == "normal"@,
        (face_of(id).1 == "bold"@) == (ends_in_bold(font_id_name(id)) || ends_in_bold_italic(font_id_name(id))),
        !(ends_in_bold(font_id_name(id)) || ends_in_bold_italic(font_id_name(id))) ==> face_of(id).1 == "normal"@,
{
    reveal_strlit("italic");
    reveal_strlit("normal");
    reveal_strlit("bold");
    assert("italic"@ != "normal"@) by {
        assert("italic"@[0] != "normal"@[0]);
    }
    assert("bold"@ != "normal"@) by {
        assert("bold"@[0] != "normal"@[0]);
    }
    match id {
        FontId::MainRegular => {
            reveal_strlit("Main-Regular");
        },
        FontId::MainBold => {
            reveal_strlit("Main-Bold");
        },
        FontId::MainItalic => {
            reveal_strlit("Main-Italic");
        },
        FontId::MainBoldItalic => {
            reveal_strlit("Main-BoldItalic");
        },
        FontId::MathItalic => {
            reveal_strlit("Math-Italic");
        },
        FontId::MathBoldItalic => {
            reveal_strlit("Math-BoldItalic");
        },
        FontId::AmsRegular => {
            reveal_strlit("AMS-Regular");
        },
        FontId::CaligraphicRegular => {
            reveal_strlit("Caligraphic-Regular");
        },
        FontId::FrakturRegular => {
            reveal_strlit("Fraktur-Regular");
        },
        FontId::FrakturBold => {
            reveal_strlit("Fraktur-Bold");
        },
        FontId::SansSerifRegular => {
            reveal_strlit("SansSerif-Regular");
        },
        FontId::SansSerifBold => {
            reveal_strlit("SansSerif-Bold");
        },
        FontId::SansSerifItalic => {
            reveal_strlit("SansSerif-Italic");
        },
        FontId::ScriptRegular => {
            reveal_strlit("Script-Regular");
        },
        FontId::TypewriterRegular => {
            reveal_strlit("Typewriter-Regular");
        },
        FontId::Size1Regular => {
            reveal_strlit("Size1-Regular");
        },
        FontId::Size2Regular => {
            reveal_strlit("Size2-Regular");
        },
        FontId::Size3Regular => {
            reveal_strlit("Size3-Regular");
        },
        FontId::Size4Regular => {
            reveal_strlit("Size4-Regular");
        },
        FontId::CjkRegular => {
            reveal_strlit("CJK-Regular");
        },
        FontId::CjkFallback => {
            reveal_strlit("CJK-Fallback");
        },
        FontId::EmojiFallback => {
            reveal_strlit("Emoji-Fallback");
        },
    }
}

/// The style and weight of a face follow the style suffix of the font name:
/// a name of the display list gets `font-style: italic` exactly when it
/// ends in `Italic`, and `font-weight: bold` exactly when it ends in `Bold`
/// or `BoldItalic`; otherwise both are `normal`. A name that is no font of
/// the display list gets the upright regular Main face.
pub proof fn law_katex_face_follows_the_style_suffix(font: Seq<char>)
    ensures
        (exists|id: FontId| font_id_name(id) == font) ==> {
            &&& (katex_face_spec(font).2 == "italic"@) == ends_in_italic(font)
            &&& !ends_in_italic(font) ==> katex_face_spec(font).2 == "normal"@
            &&& (katex_face_spec(font).1 == "bold"@) == (ends_in_bold(font) || ends_in_bold_italic(font))
            &&& !(ends_in_bold(font) || ends_in_bold_italic(font)) ==> katex_face_spec(font).1 == "normal"@
        },
        !(exists|id: FontId| font_id_name(id) == font) ==> katex_face_spec(font).1 == "normal"@ && katex_face_spec(font).2 == "normal"@,
{
    if exists|id: FontId| font_id_name(id) == font {
        let id = choose|id: FontId| font_id_name(id) == font;
        lemma_face_of_follows_the_style_suffix(id);
    }
}

// ---------------------------------------------------------------------------
// Embedded images
// ---------------------------------------------------------------------------

/// Character `v` (0..63) of the standard base64 alphabet.
pub open spec fn base64_char(v: int) -> char {
    if v < 26 {
        (('A' as int) + v) as char
    } else if v < 52 {
        (('a' as int) + v - 26) as char
    } else if v < 62 {
        (('0' as int) + v - 52) as char
    } else if v == 62 {
        '+'
    } else {
        '/'
    }
}

/// Standard base64 with `=` padding (RFC 4648): each 3 bytes become 4
/// characters of 6 bits each, most significant first.
pub open spec fn base64_spec(d: Seq<u8>) -> Seq<char>
    decreases d.len(),
{
    let a = d[0] as int;
    let b = d[1] as int;
    let c = d[2] as int;
    if d.len() == 0 {
        Seq::<char>::empty()
    } else if d.len() == 1 {
        seq![base64_char(a / 4), base64_char((a % 4) * 16), '=', '=']
    } else if d.len() == 2 {
        seq![base64_char(a / 4), base64_char((a % 4) * 16 + b / 16), base64_char((b % 16) * 4), '=']
    } else {
        seq![
            base64_char(a / 4),
            base64_char((a % 4) * 16 + b / 16),
            base64_char((b % 16) * 4 + c / 64),
            base64_char(c % 64),
        ] + base64_spec(d.subrange(3, d.len() as int))
    }
}

/// `base64::engine::general_purpose::STANDARD.encode`: the standard
/// alphabet with padding, as [`base64_spec`] states it.
#[verifier::external_body]
fn base64_standard(data: &[u8]) -> (r: String)
    requires
        data@.len() <= usize::MAX / 2,
    ensures
        r@ == base64_spec(data@),
{
    base64::Engine::encode(&base64::engine::general_purpose::STANDARD, data)
}

/// The `data:` URL of a PNG image, for an SVG `<image href>`.
pub fn png_data_url(png: &[u8]) -> (r: String)
    requires
        png@.len() <= usize::MAX / 2,
    ensures
        r@ == "data:image/png;base64,"@ + base64_spec(png@),
{
    let mut out = String::new();
    out.append("data:image/png;base64,");
    let encoded = base64_standard(png);
    out.append(encoded.as_str());
    out
}

} // verus!
