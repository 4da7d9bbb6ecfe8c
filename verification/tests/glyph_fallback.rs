use ratex::font_id::FontId;
use ratex::glyph_fallback::{glyph_attempt_plan, next_glyph_attempt, GlyphAttempt};

#[test]
fn notdef_glyph_walks_the_system_fallback_chain() {
    let plan = glyph_attempt_plan(FontId::MainBold, false, 'x');
    assert_eq!(
        plan,
        vec![
            GlyphAttempt::Face(FontId::MainRegular),
            GlyphAttempt::Face(FontId::CjkRegular),
            GlyphAttempt::Face(FontId::CjkFallback),
        ]
    );
    let plan = glyph_attempt_plan(FontId::MainBold, false, '😀');
    assert_eq!(
        plan,
        vec![
            GlyphAttempt::Face(FontId::MainRegular),
            GlyphAttempt::Face(FontId::CjkRegular),
            GlyphAttempt::EmojiRaster,
            GlyphAttempt::Face(FontId::EmojiFallback),
            GlyphAttempt::Face(FontId::CjkFallback),
        ]
    );
}

#[test]
fn found_glyphs_try_their_own_outline_first() {
    assert_eq!(
        glyph_attempt_plan(FontId::MainRegular, true, 'a'),
        vec![GlyphAttempt::Outline, GlyphAttempt::Face(FontId::CjkRegular), GlyphAttempt::Face(FontId::CjkFallback)]
    );
    assert_eq!(
        glyph_attempt_plan(FontId::AmsRegular, true, 'a'),
        vec![
            GlyphAttempt::Outline,
            GlyphAttempt::Face(FontId::MainRegular),
            GlyphAttempt::Face(FontId::CjkRegular),
            GlyphAttempt::Face(FontId::CjkFallback),
        ]
    );
    assert_eq!(
        glyph_attempt_plan(FontId::CjkRegular, true, '😀'),
        vec![
            GlyphAttempt::Outline,
            GlyphAttempt::EmojiRaster,
            GlyphAttempt::Face(FontId::EmojiFallback),
            GlyphAttempt::Face(FontId::CjkFallback),
        ]
    );
    assert_eq!(glyph_attempt_plan(FontId::CjkFallback, true, '中'), vec![GlyphAttempt::Outline]);
    assert_eq!(
        glyph_attempt_plan(FontId::EmojiFallback, true, '😀'),
        vec![GlyphAttempt::EmojiRaster, GlyphAttempt::Outline]
    );
}

#[test]
fn the_step_function_walks_the_plan_until_something_draws() {
    let plan = glyph_attempt_plan(FontId::MainBold, false, 'x');
    assert_eq!(next_glyph_attempt(&plan, None), GlyphAttempt::Face(FontId::MainRegular));
    assert_eq!(
        next_glyph_attempt(&plan, Some((GlyphAttempt::Face(FontId::MainRegular), false))),
        GlyphAttempt::Face(FontId::CjkRegular)
    );
    assert_eq!(
        next_glyph_attempt(&plan, Some((GlyphAttempt::Face(FontId::CjkRegular), true))),
        GlyphAttempt::Done
    );
    assert_eq!(
        next_glyph_attempt(&plan, Some((GlyphAttempt::Face(FontId::CjkFallback), false))),
        GlyphAttempt::Done
    );
    assert_eq!(next_glyph_attempt(&plan, Some((GlyphAttempt::EmojiRaster, false))), GlyphAttempt::Done);
    assert_eq!(next_glyph_attempt(&Vec::new(), None), GlyphAttempt::Done);
}
