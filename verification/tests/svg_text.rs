use ratex::cairo_error::CairoError;
use ratex::svg_text::{katex_face, png_data_url, push_escaped_char, SvgColorSyntax};

#[test]
fn xml_special_characters_are_escaped() {
    let mut out = String::new();
    for ch in "a<b>&\"c'".chars() {
        push_escaped_char(&mut out, ch);
    }
    assert_eq!(out, "a&lt;b&gt;&amp;&quot;c'");
}

#[test]
fn faces_of_fonts() {
    assert_eq!(katex_face("Main-Regular"), ("KaTeX_Main", "normal", "normal"));
    assert_eq!(katex_face("Main-BoldItalic"), ("KaTeX_Main", "bold", "italic"));
    assert_eq!(katex_face("Math-Italic"), ("KaTeX_Math", "normal", "italic"));
    assert_eq!(katex_face("Fraktur-Bold"), ("KaTeX_Fraktur", "bold", "normal"));
    assert_eq!(katex_face("Size4-Regular"), ("KaTeX_Size4", "normal", "normal"));
    assert_eq!(katex_face("CJK-Fallback"), ("sans-serif", "normal", "normal"));
    assert_eq!(
        katex_face("Emoji-Fallback"),
        (r#"Apple Color Emoji, "Segoe UI Emoji", "Noto Color Emoji", sans-serif"#, "normal", "normal")
    );
    assert_eq!(katex_face("Unknown"), ("KaTeX_Main", "normal", "normal"));
}

#[test]
fn default_color_syntax_is_rgba() {
    assert_eq!(SvgColorSyntax::default(), SvgColorSyntax::Rgba);
    assert_ne!(SvgColorSyntax::default(), SvgColorSyntax::Rgb);
}

#[test]
fn cairo_error_text() {
    assert_eq!(CairoError::Font("missing".to_string()).message(), "font error: missing");
    assert_eq!(CairoError::Cairo("bad surface".to_string()).message(), "cairo error: bad surface");
}

/// RFC 4648 base64 with padding, written out as the library states it.
fn reference_base64(d: &[u8]) -> String {
    const ALPHABET: &[u8] = b"ABCDEFGHIJKLMNOPQRSTUVWXYZabcdefghijklmnopqrstuvwxyz0123456789+/";
    let mut out = String::new();
    for chunk in d.chunks(3) {
        let a = chunk[0] as usize;
        let b = chunk.get(1).copied().unwrap_or(0) as usize;
        let c = chunk.get(2).copied().unwrap_or(0) as usize;
        out.push(ALPHABET[a / 4] as char);
        out.push(ALPHABET[(a % 4) * 16 + b / 16] as char);
        out.push(if chunk.len() > 1 { ALPHABET[(b % 16) * 4 + c / 64] as char } else { '=' });
        out.push(if chunk.len() > 2 { ALPHABET[c % 64] as char } else { '=' });
    }
    out
}

#[test]
fn png_data_urls_are_base64() {
    assert_eq!(png_data_url(b"Man"), "data:image/png;base64,TWFu");
    assert_eq!(png_data_url(b"Ma"), "data:image/png;base64,TWE=");
    assert_eq!(png_data_url(b"M"), "data:image/png;base64,TQ==");
    assert_eq!(png_data_url(b""), "data:image/png;base64,");
    let all: Vec<u8> = (0..=255u8).collect();
    for n in 0..all.len() {
        let want = format!("data:image/png;base64,{}", reference_base64(&all[..n]));
        assert_eq!(png_data_url(&all[..n]), want);
    }
}
