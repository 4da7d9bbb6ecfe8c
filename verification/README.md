# ratex

The verified core of a KaTeX-compatible math renderer: which fonts a render
needs and where they come from, the bounded caches that hold raw fonts,
parsed faces, glyph outlines and rasterized glyphs, and the discrete rules
and pixel arithmetic of layout and rendering. The functions in `src/` have
contracts that Verus proves, except a few small wrappers around calls into
`ab_glyph`, `ttf-parser`, `fontdb`, `png`, `base64` and `std`, whose
contracts are trusted and say in their doc comments what they claim.

## Layout

- `src/` — the library, verified by Verus.
  - `font_id` — the font faces and their names.
  - `unicode_font` — system Unicode/CJK/emoji font discovery (each role
    resolved once), font specs `path[#index|#Family]`, SFNT magic numbers and
    the emoji code-point filter.
  - `font_loader` — load plans, generation identifiers, the raw font cache
    and loading a plan through it.
  - `parsed_font` — the parsed-face layer over the raw cache and the
    per-render system font resolver.
  - `outline_cache`, `raster_cache` — bounded glyph outline, emoji strike
    and glyph mask caches.
  - `glyph_fallback` — the order in which the renderer tries the requested
    face, the colour-emoji strike and the system faces for one glyph.
  - `layout_rules`, `html_style` — atom classes and binary-operator
    cancellation, delimiter aliases, `\htmlStyle` declarations.
  - `pixels`, `svg_text`, `cairo_error` — lowp compositing and mask blits,
    bitmap strike conversion, PNG encoding, SVG text escaping, font faces and
    `data:` URLs, backend errors.
  - `text` — string primitives with specifications (parsing, trimming,
    case folding, decimal formatting).
- `app/` — process-wide state behind locks, file/environment/system font
  access, outline extraction and the floating-point pixel conversion.
- `tests/` — tests of the library's public behaviour.

The library keeps caches and discovery results as plain values; reading
files, listing system font candidates and querying the system font database
are closures the caller hands in, so the contracts speak about every possible
outcome of that outside work. The order in which candidates are tried, how a
font spec selects a face, and the check that a discovered font is an SFNT
font with a face inside the file are decided and verified here.
