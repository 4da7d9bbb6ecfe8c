use std::sync::Arc;

use ratex::font_id::FontId;
use ratex::font_loader::OutlineSourceIds;
use ratex::raster_cache::{pack_rgba8, EmojiRasterCacheKey, GlyphMaskKey, RasterCache};

fn key(glyph_id: u16) -> EmojiRasterCacheKey {
    EmojiRasterCacheKey {
        font_ptr: 1,
        font_len: 1,
        face_index: 0,
        glyph_id,
        pixels_per_em: 16,
    }
}

/// A decoded `width` x `height` RGBA strike and its pixel byte count.
fn entry(width: u32, height: u32) -> (Arc<Vec<u8>>, usize) {
    let bytes = (width * height * 4) as usize;
    (Arc::new(vec![0; bytes]), bytes)
}

#[test]
fn emoji_raster_cache_enforces_decoded_byte_budget() {
    let mut cache = RasterCache::new();
    let (first, entry_bytes) = entry(2, 2);
    cache.insert_with_limits(key(1), first, entry_bytes, 4, entry_bytes + 1);
    assert_eq!(cache.bytes(), entry_bytes);

    // The second raster would exceed the byte budget, so the old entry is
    // evicted and the cache remains within budget.
    let (second, n) = entry(2, 2);
    cache.insert_with_limits(key(2), Arc::clone(&second), n, 4, entry_bytes + 1);
    assert_eq!(cache.len(), 1);
    assert!(cache.contains_key(&key(2)));
    assert_eq!(cache.bytes(), entry_bytes);

    // A duplicate insertion at the entry cap must preserve the hot value.
    let (dup, n) = entry(2, 2);
    cache.insert_with_limits(key(2), dup, n, 1, entry_bytes + 1);
    assert!(Arc::ptr_eq(&cache.get(&key(2)).unwrap(), &second));

    // A single oversized raster is not cached and does not flush entries
    // that already fit within the budget.
    let (big, n) = entry(3, 3);
    cache.insert_with_limits(key(3), big, n, 4, entry_bytes + 1);
    assert_eq!(cache.len(), 1);
    assert!(cache.contains_key(&key(2)));
    assert_eq!(cache.bytes(), entry_bytes);
}

#[test]
fn glyph_masks_are_keyed_exactly_and_bounded_by_count() {
    let mut ids = OutlineSourceIds::new();
    let source = ids.fresh();
    let mask = |glyph_id: u16, color: u32| GlyphMaskKey {
        source,
        font_id: FontId::MainRegular,
        glyph_id,
        size_bits: 40.0f32.to_bits(),
        frac_x: 0.25f32.to_bits(),
        frac_y: 0,
        color,
    };
    let mut cache = RasterCache::new();
    cache.insert_with_limits(mask(1, 0xff), Arc::new(1u8), 10, 2, 100);
    cache.insert_with_limits(mask(1, 0xfe), Arc::new(2u8), 10, 2, 100);
    assert_eq!(cache.len(), 2);
    assert_eq!(*cache.get(&mask(1, 0xff)).unwrap(), 1);
    cache.insert_with_limits(mask(2, 0xff), Arc::new(3u8), 10, 2, 100);
    assert_eq!(cache.len(), 1);
    assert_eq!(cache.bytes(), 10);
    assert!(cache.get(&mask(1, 0xff)).is_none());
}

#[test]
fn packed_colors_put_red_in_the_top_byte() {
    assert_eq!(pack_rgba8([0x12, 0x34, 0x56, 0x78]), 0x1234_5678);
    assert_eq!(pack_rgba8([255, 0, 0, 255]), 0xff00_00ff);
}
