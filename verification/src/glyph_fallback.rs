//! The order in which the PNG renderer tries to draw one glyph: the requested
//! face first, then the colour-emoji strike and the system faces, stopping at
//! the first attempt that draws something.

use vstd::prelude::*;

use crate::font_id::FontId;
use crate::unicode_font::{in_emoji_ranges, is_emoji_candidate};

verus! {

/// One way of drawing a glyph.
#[derive(Clone, Copy, Debug, PartialEq, Eq, Structural)]
pub enum GlyphAttempt {
    /// The glyph's outline in the requested face.
    Outline,
    /// The character's outline in another loaded face.
    Face(FontId),
    /// The colour-emoji raster strike.
    EmojiRaster,
    /// Nothing is left to try.
    Done,
}

/// The colour-emoji attempts for an emoji candidate: the raster strike
/// first (colour fonts often carry only an invisible masking outline), then
/// the emoji face's outline.
pub open spec fn emoji_attempts(emoji: bool) -> Seq<GlyphAttempt> {
    if emoji {
        seq![GlyphAttempt::EmojiRaster, GlyphAttempt::Face(FontId::EmojiFallback)]
    } else {
        Seq::empty()
    }
}

/// The system fallback chain: Main-Regular (unless it was the face just
/// tried), the system Unicode face, the emoji attempts, and the secondary
/// system face last.
pub open spec fn system_fallback_attempts(skip_main: bool, emoji: bool) -> Seq<GlyphAttempt> {
    (if skip_main { Seq::empty() } else { seq![GlyphAttempt::Face(FontId::MainRegular)] })
        + seq![GlyphAttempt::Face(FontId::CjkRegular)]
        + emoji_attempts(emoji)
        + seq![GlyphAttempt::Face(FontId::CjkFallback)]
}

/// Every attempt for a glyph of `font_id`, in order. `glyph_found` says
/// whether the face maps the character to a glyph other than `.notdef`;
/// `emoji` whether the character is an emoji candidate.
pub open spec fn glyph_attempts(font_id: FontId, glyph_found: bool, emoji: bool) -> Seq<GlyphAttempt> {
    if !glyph_found {
        system_fallback_attempts(false, emoji)
    } else if font_id == FontId::EmojiFallback {
        seq![GlyphAttempt::EmojiRaster, GlyphAttempt::Outline]
    } else if font_id == FontId::CjkRegular {
        seq![GlyphAttempt::Outline] + emoji_attempts(emoji) + seq![GlyphAttempt::Face(FontId::CjkFallback)]
    } else if font_id == FontId::CjkFallback {
        seq![GlyphAttempt::Outline] + emoji_attempts(emoji)
    } else {
        seq![GlyphAttempt::Outline] + system_fallback_attempts(font_id == FontId::MainRegular, emoji)
    }
}

/// The attempt that follows `a` in `plan`, or `Done` when `a` is the last
/// one or not in the plan.
pub open spec fn attempt_after(plan: Seq<GlyphAttempt>, a: GlyphAttempt) -> GlyphAttempt
    decreases plan.len(),
{
    if plan.len() == 0 {
        GlyphAttempt::Done
    } else if plan[0] == a {
        if plan.len() >= 2 {
            plan[1]
        } else {
            GlyphAttempt::Done
        }
    } else {
        attempt_after(plan.drop_first(), a)
    }
}

/// What to do after `last` (the previous attempt and whether it drew):
/// the first attempt of the plan to begin with, `Done` once one drew, and
/// otherwise the next attempt of the plan.
pub open spec fn next_attempt_spec(plan: Seq<GlyphAttempt>, last: Option<(GlyphAttempt, bool)>) -> GlyphAttempt {
    match last {
        None => if plan.len() > 0 { plan[0] } else { GlyphAttempt::Done },
        Some((_, true)) => GlyphAttempt::Done,
        Some((a, false)) => attempt_after(plan, a),
    }
}

fn push_emoji_attempts(plan: &mut Vec<GlyphAttempt>, emoji: bool)
    ensures
        final(plan)@ == old(plan)@ + emoji_attempts(emoji),
{
    if emoji {
        plan.push(GlyphAttempt::EmojiRaster);
        plan.push(GlyphAttempt::Face(FontId::EmojiFallback));
    }
    assert(final(plan)@ =~= old(plan)@ + emoji_attempts(emoji));
}

fn push_system_fallback_attempts(plan: &mut Vec<GlyphAttempt>, skip_main: bool, emoji: bool)
    ensures
        final(plan)@ == old(plan)@ + system_fallback_attempts(skip_main, emoji),
{
    if !skip_main {
        plan.push(GlyphAttempt::Face(FontId::MainRegular));
    }
    plan.push(GlyphAttempt::Face(FontId::CjkRegular));
    push_emoji_attempts(plan, emoji);
    plan.push(GlyphAttempt::Face(FontId::CjkFallback));
    assert(final(plan)@ =~= old(plan)@ + system_fallback_attempts(skip_main, emoji));
}

/// Every attempt for drawing `ch` from `font_id`, in the order the renderer
/// makes them.
pub fn glyph_attempt_plan(font_id: FontId, glyph_found: bool, ch: char) -> (r: Vec<GlyphAttempt>)
    ensures
        r@ == glyph_attempts(font_id, glyph_found, in_emoji_ranges(ch as u32)),
{
    let emoji = is_emoji_candidate(ch);
    let mut plan: Vec<GlyphAttempt> = Vec::new();
    if !glyph_found {
        push_system_fallback_attempts(&mut plan, false, emoji);
    } else if font_id == FontId::EmojiFallback {
        plan.push(GlyphAttempt::EmojiRaster);
        plan.push(GlyphAttempt::Outline);
    } else if font_id == FontId::CjkRegular {
        plan.push(GlyphAttempt::Outline);
        push_emoji_attempts(&mut plan, emoji);
        plan.push(GlyphAttempt::Face(FontId::CjkFallback));
    } else if font_id == FontId::CjkFallback {
        plan.push(GlyphAttempt::Outline);
        push_emoji_attempts(&mut plan, emoji);
    } else {
        plan.push(GlyphAttempt::Outline);
        push_system_fallback_attempts(&mut plan, font_id == FontId::MainRegular, emoji);
    }
    assert(plan@ =~= glyph_attempts(font_id, glyph_found, emoji));
    plan
}

proof fn lemma_attempt_after_skip(plan: Seq<GlyphAttempt>, a: GlyphAttempt, i: int)
    requires
        0 <= i < plan.len(),
        forall|j: int| 0 <= j < i ==> plan[j] != a,
    ensures
        attempt_after(plan, a) == attempt_after(plan.subrange(i, plan.len() as int), a),
    decreases i,
{
    if i == 0 {
        assert(plan.subrange(0, plan.len() as int) =~= plan);
    } else {
        assert(plan[0] != a);
        lemma_attempt_after_skip(plan.drop_first(), a, i - 1);
        assert(plan.drop_first().subrange(i - 1, plan.drop_first().len() as int) =~= plan.subrange(i, plan.len() as int));
    }
}

proof fn lemma_attempt_after_absent(plan: Seq<GlyphAttempt>, a: GlyphAttempt)
    requires
        forall|j: int| 0 <= j < plan.len() ==> plan[j] != a,
    ensures
        attempt_after(plan, a) == GlyphAttempt::Done,
    decreases plan.len(),
{
    if plan.len() > 0 {
        lemma_attempt_after_absent(plan.drop_first(), a);
    }
}

/// One step of the renderer's fallback loop: given the plan and the previous
/// attempt with whether it drew, the attempt to make now.
pub fn next_glyph_attempt(plan: &Vec<GlyphAttempt>, last: Option<(GlyphAttempt, bool)>) -> (r: GlyphAttempt)
    ensures
        r == next_attempt_spec(plan@, last),
{
    match last {
        None => {
            if plan.len() > 0 {
                plan[0]
            } else {
                GlyphAttempt::Done
            }
        },
        Some((_, true)) => GlyphAttempt::Done,
        Some((a, false)) => {
            let mut i: usize = 0;
            while i < plan.len()
                invariant
                    last == Some((a, false)),
                    i <= plan@.len(),
                    forall|j: int| 0 <= j < i ==> plan@[j] != a,
                decreases plan@.len() - i,
            {
                if plan[i] == a {
                    proof {
                        lemma_attempt_after_skip(plan@, a, i as int);
                        let sub = plan@.subrange(i as int, plan@.len() as int);
                        assert(sub[0] == a);
                        if i + 1 < plan@.len() {
                            assert(sub[1] == plan@[i + 1]);
                        }
                    }
                    if i + 1 < plan.len() {
                        return plan[i + 1];
                    } else {
                        return GlyphAttempt::Done;
                    }
                }
                i = i + 1;
            }
            proof {
                lemma_attempt_after_absent(plan@, a);
            }
            GlyphAttempt::Done
        },
    }
}

/// Driving the loop with [`next_glyph_attempt`] walks a plan in order: it
/// starts with the first attempt, after an attempt that did not draw comes
/// the next one of the plan (`Done` after the last), and after one that drew
/// comes `Done`.
pub proof fn law_next_attempt_walks_plan(plan: Seq<GlyphAttempt>, k: int, drew: bool)
    requires
        plan.no_duplicates(),
        0 <= k < plan.len(),
    ensures
        next_attempt_spec(plan, None) == plan[0],
        next_attempt_spec(plan, Some((plan[k], drew))) == if drew {
            GlyphAttempt::Done
        } else if k + 1 < plan.len() {
            plan[k + 1]
        } else {
            GlyphAttempt::Done
        },
{
    lemma_attempt_after_skip(plan, plan[k], k);
    let sub = plan.subrange(k, plan.len() as int);
    assert(sub[0] == plan[k]);
    if k + 1 < plan.len() {
        assert(sub[1] == plan[k + 1]);
    }
}

/// The shape of every plan: it tries nothing twice, it never falls back to
/// the face whose glyph was found, it tries the found glyph's outline first
/// (after the raster strike for the emoji face), and it tries the emoji
/// raster strike before the emoji face's outline.
pub proof fn law_glyph_attempts_shape(font_id: FontId, glyph_found: bool, emoji: bool)
    ensures
        glyph_attempts(font_id, glyph_found, emoji).no_duplicates(),
        glyph_found ==> !glyph_attempts(font_id, glyph_found, emoji).contains(GlyphAttempt::Face(font_id)),
        glyph_found && font_id != FontId::EmojiFallback ==> glyph_attempts(font_id, glyph_found, emoji)[0] == GlyphAttempt::Outline,
        !glyph_found ==> !glyph_attempts(font_id, glyph_found, emoji).contains(GlyphAttempt::Outline),
        forall|i: int, j: int| 0 <= i < glyph_attempts(font_id, glyph_found, emoji).len() && 0 <= j < glyph_attempts(font_id, glyph_found, emoji).len()
            && glyph_attempts(font_id, glyph_found, emoji)[i] == GlyphAttempt::EmojiRaster
            && glyph_attempts(font_id, glyph_found, emoji)[j] == GlyphAttempt::Face(FontId::EmojiFallback) ==> i < j,
        !glyph_attempts(font_id, glyph_found, emoji).contains(GlyphAttempt::Done),
{
    let p = glyph_attempts(font_id, glyph_found, emoji);
    assert(p.no_duplicates());
    assert(glyph_found ==> !p.contains(GlyphAttempt::Face(font_id)));
    assert(!glyph_found ==> !p.contains(GlyphAttempt::Outline));
    assert(!p.contains(GlyphAttempt::Done));
}

} // verus!
