//! Verified core of a KaTeX-compatible math rendering engine: font discovery
//! and font-cache policy, glyph-set planning, spacing rules and pixel arithmetic.

pub mod cairo_error;
pub mod font_id;
pub mod font_loader;
pub mod glyph_fallback;
pub mod html_style;
pub mod layout_rules;
pub mod outline_cache;
pub mod parsed_font;
pub mod pixels;
pub mod raster_cache;
pub mod svg_text;
pub mod text;
pub mod unicode_font;
