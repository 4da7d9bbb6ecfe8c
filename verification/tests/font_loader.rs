use std::sync::Arc;

use ratex::font_id::FontId;
use ratex::font_loader::{
    cache_key, collect_cached, insert_font_cache_entry, insert_font_cache_entry_with_limits,
    katex_font_file, katex_source_key, legacy_outline_source_id, intern_outline_source,
    load_fonts_for_items, load_fonts_for_items_lazy, load_fonts_for_plan, validate_required,
    CacheKey, FontCache, FontIdSet, FontLoadPlan, FontSet, FontSourceKey, FontStorage, LoadedFont,
    OutlineSourceIds, OutlineSourceTable, PlanItem,
};
use ratex::unicode_font::FontData;

fn glyph(font: FontId, char_code: u32, has_katex_metrics: bool) -> PlanItem {
    PlanItem::Glyph {
        font: font.as_str().to_string(),
        char_code,
        has_katex_metrics,
    }
}

fn dir(path: &str) -> FontSourceKey {
    FontSourceKey::Directory(path.to_string())
}

#[test]
fn ascii_katex_glyph_does_not_request_unicode_fallbacks() {
    // 'x' has KaTeX metrics in Main-Regular.
    let plan = FontLoadPlan::for_display_items(&[glyph(FontId::MainRegular, 'x' as u32, true)]);

    assert!(plan.required().contains(&FontId::MainRegular));
    assert!(!plan.optional().contains(&FontId::CjkRegular));
    assert!(!plan.optional().contains(&FontId::EmojiFallback));
    assert!(!plan.optional().contains(&FontId::CjkFallback));
}

#[test]
fn non_ascii_without_katex_metrics_keeps_legacy_unicode_fallbacks() {
    // '⌘' has no KaTeX metrics.
    let plan = FontLoadPlan::for_display_items(&[glyph(FontId::MainRegular, '⌘' as u32, false)]);

    assert!(plan.required().contains(&FontId::MainRegular));
    assert!(plan.optional().contains(&FontId::CjkRegular));
    assert!(plan.optional().contains(&FontId::EmojiFallback));
    assert!(plan.optional().contains(&FontId::CjkFallback));
    assert!(!plan.required().contains(&FontId::CjkRegular));
}

#[test]
fn explicit_cjk_glyph_keeps_legacy_optional_fallbacks() {
    let plan = FontLoadPlan::for_display_items(&[glyph(FontId::CjkRegular, '你' as u32, false)]);

    assert!(plan.required().contains(&FontId::CjkRegular));
    assert!(plan.optional().contains(&FontId::EmojiFallback));
    assert!(plan.optional().contains(&FontId::CjkFallback));
}

#[test]
fn lazy_plan_defers_unicode_fallbacks() {
    let missing = FontLoadPlan::for_display_items_lazy(&[glyph(FontId::MainRegular, '⌘' as u32, false)]);
    assert!(missing.required().contains(&FontId::MainRegular));
    assert!(missing.optional().is_empty());

    let explicit = FontLoadPlan::for_display_items_lazy(&[glyph(FontId::CjkRegular, '你' as u32, false)]);
    assert!(explicit.required().contains(&FontId::CjkRegular));
    assert!(explicit.optional().is_empty());
}

#[test]
fn raw_font_cache_enforces_byte_budget_without_retaining_oversized_font() {
    let key_a = CacheKey {
        source: FontSourceKey::Legacy,
        font_id: FontId::MainRegular,
    };
    let key_b = CacheKey {
        source: FontSourceKey::Legacy,
        font_id: FontId::MainBold,
    };
    let mut cached = FontCache::new();
    let mut ids = OutlineSourceIds::new();

    let small = Some(LoadedFont::new(FontStorage::Owned(Arc::new(vec![0; 6])), &mut ids));
    insert_font_cache_entry_with_limits(&mut cached, key_a.duplicate(), small, 8, 8);
    assert_eq!(cached.bytes(), 6);
    assert!(cached.contains_key(&key_a));

    // A new entry that would exceed the aggregate budget clears old
    // values, then stores the new one within the same budget.
    let small = Some(LoadedFont::new(FontStorage::Owned(Arc::new(vec![0; 6])), &mut ids));
    insert_font_cache_entry_with_limits(&mut cached, key_b.duplicate(), small, 8, 8);
    assert_eq!(cached.bytes(), 6);
    assert!(!cached.contains_key(&key_a));
    assert!(cached.contains_key(&key_b));

    let too_large = Some(LoadedFont::new(FontStorage::Owned(Arc::new(vec![0; 9])), &mut ids));
    insert_font_cache_entry_with_limits(&mut cached, key_a.duplicate(), too_large, 8, 8);
    assert_eq!(cached.bytes(), 6);
    assert!(!cached.contains_key(&key_a));
}

#[test]
fn cached_missing_optional_font_counts_as_known() {
    let font_dir = dir("/tmp/ratex-font-loader-test-missing-optional");
    let wanted = FontIdSet::single(FontId::EmojiFallback);

    let mut cached = FontCache::new();
    insert_font_cache_entry(&mut cached, cache_key(&font_dir, FontId::EmojiFallback), None);

    let mut out = FontSet::empty();
    assert!(collect_cached(&font_dir, &wanted, &cached, &mut out));
    assert!(!out.contains_key(&FontId::EmojiFallback));
}

#[test]
fn system_font_bytes_do_not_count_against_the_cache_budget() {
    let mut ids = OutlineSourceIds::new();
    let mut cached = FontCache::new();
    let system = LoadedFont::new(FontStorage::System(FontData::new(vec![7; 100])), &mut ids);
    insert_font_cache_entry_with_limits(&mut cached, cache_key(&FontSourceKey::Legacy, FontId::CjkRegular), Some(system), 8, 8);
    assert_eq!(cached.bytes(), 0);
    assert_eq!(cached.len(), 1);
}

#[test]
fn entry_cap_clears_before_inserting() {
    let mut ids = OutlineSourceIds::new();
    let mut cached = FontCache::new();
    let src = dir("/fonts");
    for id in [FontId::MainRegular, FontId::MainBold] {
        let f = LoadedFont::new(FontStorage::Owned(Arc::new(vec![1])), &mut ids);
        insert_font_cache_entry_with_limits(&mut cached, cache_key(&src, id), Some(f), 2, 100);
    }
    assert_eq!(cached.len(), 2);
    let f = LoadedFont::new(FontStorage::Owned(Arc::new(vec![1])), &mut ids);
    insert_font_cache_entry_with_limits(&mut cached, cache_key(&src, FontId::MainItalic), Some(f), 2, 100);
    assert_eq!(cached.len(), 1);
    assert!(cached.contains_key(&cache_key(&src, FontId::MainItalic)));
    // Replacing an existing key does not count against the entry cap.
    let f = LoadedFont::new(FontStorage::Owned(Arc::new(vec![1, 2])), &mut ids);
    insert_font_cache_entry_with_limits(&mut cached, cache_key(&src, FontId::MainItalic), Some(f), 1, 100);
    assert_eq!(cached.len(), 1);
    assert_eq!(cached.bytes(), 2);
}

fn loader(id: FontId) -> Result<Option<FontStorage>, String> {
    match id {
        FontId::MainRegular => Ok(Some(FontStorage::Owned(Arc::new(vec![1, 2, 3])))),
        FontId::MainBold => Err("Failed to read KaTeX_Main-Bold.ttf".to_string()),
        _ => Ok(None),
    }
}

#[test]
fn plan_load_reads_each_font_once_and_then_serves_the_cache() {
    let mut cache = FontCache::new();
    let mut ids = OutlineSourceIds::new();
    let src = dir("/fonts");
    let plan = FontLoadPlan::from_sets(FontIdSet::single(FontId::MainRegular), FontIdSet::single(FontId::Size1Regular));
    let first = load_fonts_for_plan(&mut cache, &mut ids, &src, &plan, loader).unwrap();
    assert_eq!(first.get(&FontId::MainRegular), Some(&[1u8, 2, 3][..]));
    assert!(!first.contains_key(&FontId::Size1Regular));
    let first_source = first.source_id(&FontId::MainRegular).unwrap();

    // Everything is known now: a loader that would fail is never called.
    let second = load_fonts_for_plan(&mut cache, &mut ids, &src, &plan, |_: FontId| -> Result<Option<FontStorage>, String> {
        Err("must not be called".to_string())
    })
    .unwrap();
    assert_eq!(second.source_id(&FontId::MainRegular), Some(first_source));
    assert!(!second.contains_key(&FontId::Size1Regular));
}

#[test]
fn plan_load_reports_missing_required_fonts_and_loader_errors() {
    let mut cache = FontCache::new();
    let mut ids = OutlineSourceIds::new();
    let src = dir("/fonts");
    let missing = FontLoadPlan::from_sets(FontIdSet::single(FontId::AmsRegular), FontIdSet::new());
    let err = load_fonts_for_plan(&mut cache, &mut ids, &src, &missing, loader).unwrap_err();
    assert_eq!(err, "Missing required font AMS-Regular");

    let failing = FontLoadPlan::from_sets(FontIdSet::single(FontId::MainBold), FontIdSet::new());
    let err = load_fonts_for_plan(&mut cache, &mut ids, &src, &failing, loader).unwrap_err();
    assert_eq!(err, "Failed to read KaTeX_Main-Bold.ttf");
}

#[test]
fn item_loaders_follow_their_plans() {
    let mut cache = FontCache::new();
    let mut ids = OutlineSourceIds::new();
    let src = dir("/fonts");
    let items = [glyph(FontId::MainRegular, '⌘' as u32, false), PlanItem::Other];
    let eager = load_fonts_for_items(&mut cache, &mut ids, &src, &items, loader).unwrap();
    assert!(eager.contains_key(&FontId::MainRegular));
    let lazy = load_fonts_for_items_lazy(&mut cache, &mut ids, &src, &items, loader).unwrap();
    assert_eq!(lazy.iter().len(), 1);
}

#[test]
fn validate_names_the_missing_font() {
    let plan = FontLoadPlan::from_sets(FontIdSet::single(FontId::Size2Regular), FontIdSet::new());
    let set = FontSet::empty();
    assert_eq!(validate_required(&plan, &set).unwrap_err(), "Missing required font Size2-Regular");
}

#[test]
fn later_font_of_one_id_wins_and_gets_a_fresh_generation() {
    let mut ids = OutlineSourceIds::new();
    let set = FontSet::from_fonts(vec![(FontId::MainRegular, vec![1]), (FontId::MainRegular, vec![2])], &mut ids);
    assert_eq!(set.get(&FontId::MainRegular), Some(&[2u8][..]));
    let other = FontSet::from_fonts(vec![(FontId::MainRegular, vec![2])], &mut ids);
    assert_ne!(set.source_id(&FontId::MainRegular), other.source_id(&FontId::MainRegular));
}

#[test]
fn ensure_system_font_rejects_katex_faces() {
    let mut set = FontSet::empty();
    let mut cache = FontCache::new();
    let mut ids = OutlineSourceIds::new();
    let err = set.ensure_system_font(FontId::MainRegular, &mut cache, &mut ids, loader).unwrap_err();
    assert_eq!(err, "Main-Regular is not a system fallback font");
    let found = set
        .ensure_system_font(FontId::EmojiFallback, &mut cache, &mut ids, |_: FontId| -> Result<Option<FontStorage>, String> {
            Ok(Some(FontStorage::System(FontData::new(vec![9]))))
        })
        .unwrap();
    assert!(found);
    assert_eq!(set.get(&FontId::EmojiFallback), Some(&[9u8][..]));
}

#[test]
fn interned_sources_keep_their_id_and_new_sources_get_fresh_ones() {
    let mut table = OutlineSourceTable::new();
    let mut ids = OutlineSourceIds::new();
    let a = intern_outline_source(&mut table, &mut ids, dir("/a"));
    let b = intern_outline_source(&mut table, &mut ids, dir("/b"));
    let a_again = intern_outline_source(&mut table, &mut ids, dir("/a"));
    assert_eq!(a, a_again);
    assert_ne!(a, b);
    let legacy = legacy_outline_source_id(&mut table, &mut ids);
    assert_eq!(legacy, legacy_outline_source_id(&mut table, &mut ids));
    assert_ne!(legacy, a);
}

#[test]
fn katex_files_and_sources() {
    assert_eq!(katex_font_file(FontId::MainRegular).as_deref(), Some("KaTeX_Main-Regular.ttf"));
    assert_eq!(katex_font_file(FontId::Size4Regular).as_deref(), Some("KaTeX_Size4-Regular.ttf"));
    assert_eq!(katex_font_file(FontId::EmojiFallback), None);
    assert!(matches!(katex_source_key(true, "/x".to_string()), FontSourceKey::Embedded));
    assert!(katex_source_key(false, "/x".to_string()).same_as(&dir("/x")));
    // System fonts are keyed by their discovery role, whatever the directory.
    assert!(cache_key(&dir("/x"), FontId::CjkRegular).same_as(&cache_key(&dir("/y"), FontId::CjkRegular)));
    assert!(!cache_key(&dir("/x"), FontId::MainRegular).same_as(&cache_key(&dir("/y"), FontId::MainRegular)));
}

#[test]
fn a_known_unavailable_required_font_fails_without_reading() {
    let mut cache = FontCache::new();
    let mut ids = OutlineSourceIds::new();
    let src = dir("/fonts");
    insert_font_cache_entry(&mut cache, cache_key(&src, FontId::AmsRegular), None);
    let plan = FontLoadPlan::from_sets(FontIdSet::single(FontId::AmsRegular), FontIdSet::new());
    let err = load_fonts_for_plan(&mut cache, &mut ids, &src, &plan, |_: FontId| -> Result<Option<FontStorage>, String> {
        Err("must not be called".to_string())
    })
    .unwrap_err();
    assert_eq!(err, "Missing required font AMS-Regular");
    assert_eq!(ids.peek(), 1);
}

#[test]
fn an_unreadable_optional_font_fails_the_load() {
    let mut cache = FontCache::new();
    let mut ids = OutlineSourceIds::new();
    let src = dir("/fonts");
    let plan = FontLoadPlan::from_sets(FontIdSet::single(FontId::MainRegular), FontIdSet::single(FontId::MainBold));
    let err = load_fonts_for_plan(&mut cache, &mut ids, &src, &plan, loader).unwrap_err();
    assert_eq!(err, "Failed to read KaTeX_Main-Bold.ttf");
}

#[test]
fn reloaded_sets_get_distinct_generations() {
    let mut ids = OutlineSourceIds::new();
    let a = FontSet::from_fonts(vec![(FontId::MainRegular, vec![7])], &mut ids);
    let b = FontSet::from_fonts(vec![(FontId::MainRegular, vec![7])], &mut ids);
    assert_ne!(a.source_id(&FontId::MainRegular), b.source_id(&FontId::MainRegular));
}

#[test]
fn a_font_read_again_after_eviction_gets_a_new_generation() {
    let mut cache = FontCache::new();
    let mut ids = OutlineSourceIds::new();
    let src = dir("/fonts");
    let plan = FontLoadPlan::from_sets(FontIdSet::single(FontId::MainRegular), FontIdSet::new());
    let first = load_fonts_for_plan(&mut cache, &mut ids, &src, &plan, loader).unwrap();
    ratex::font_loader::remove_font_cache_entry(&mut cache, &cache_key(&src, FontId::MainRegular));
    let second = load_fonts_for_plan(&mut cache, &mut ids, &src, &plan, loader).unwrap();
    assert_ne!(first.source_id(&FontId::MainRegular), second.source_id(&FontId::MainRegular));
    assert!(second.source_id(&FontId::MainRegular).is_some());
}
