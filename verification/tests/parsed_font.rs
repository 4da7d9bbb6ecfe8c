use std::sync::Arc;

use ratex::font_id::FontId;
use ratex::font_loader::{cache_key, FontCache, FontIdSet, FontLoadPlan, FontSet, FontSourceKey, FontStorage, LoadedFont, OutlineSourceIds};
use ratex::parsed_font::{
    collect_cached_layered, font_face_index, get_or_parse_cached, insert_parsed_cache_entry,
    insert_parsed_cache_entry_with_limits, load_fonts_for_plan_parsed, load_system_font_parsed,
    parse_font_vec, parsed_entry_matches_raw, parsed_font_policy, ParsedFontCache,
    ParsedFontCacheEntry, ParsedFontPolicy, ParsedFontSet, SystemFaces, SystemFontResolver,
    PARSED_FONT_MAX_BYTES,
};
use ratex::unicode_font::FontData;

fn source_dir(path: &str) -> FontSourceKey {
    FontSourceKey::Directory(path.to_string())
}

const NO_FACES: SystemFaces = SystemFaces { unicode: None, fallback: None, emoji: None };

#[test]
fn cached_missing_optional_parsed_font_counts_as_known() {
    let font_dir = source_dir("/tmp/ratex-font-loader-test-missing-optional");
    let wanted = FontIdSet::single(FontId::EmojiFallback);
    let mut ids = OutlineSourceIds::new();
    let raw = FontSet::from_fonts(Vec::new(), &mut ids);

    let mut cached = ParsedFontCache::new();
    insert_parsed_cache_entry(&mut cached, cache_key(&font_dir, FontId::EmojiFallback), ParsedFontCacheEntry::Missing);

    let mut out = ParsedFontSet::new();
    assert!(collect_cached_layered(&font_dir, &wanted, &raw, &cached, &mut out));
    assert!(!out.contains_parsed(&FontId::EmojiFallback));
    assert!(!out.contains_key(&FontId::EmojiFallback));
}

#[test]
fn raw_only_font_invalidates_an_older_parsed_cache_marker() {
    let font_dir = source_dir("/tmp/ratex-font-loader-test-raw-only-reload");
    let wanted = FontIdSet::single(FontId::EmojiFallback);
    let mut ids = OutlineSourceIds::new();
    let raw = FontSet::from_fonts(vec![(FontId::EmojiFallback, vec![0])], &mut ids);
    let mut cached = ParsedFontCache::new();
    insert_parsed_cache_entry(&mut cached, cache_key(&font_dir, FontId::EmojiFallback), ParsedFontCacheEntry::Missing);

    let mut out = ParsedFontSet::new();
    assert!(!collect_cached_layered(&font_dir, &wanted, &raw, &cached, &mut out));
    assert!(out.iter_raw_with_source().iter().any(|(id, _, _)| *id == FontId::EmojiFallback));
}

#[test]
fn parsed_font_policy_keeps_large_and_system_fallback_fonts_raw() {
    assert_eq!(parsed_font_policy(FontId::MainRegular, PARSED_FONT_MAX_BYTES), ParsedFontPolicy::Parsed);
    assert_eq!(parsed_font_policy(FontId::MainRegular, PARSED_FONT_MAX_BYTES + 1), ParsedFontPolicy::RawOnly);
    assert_eq!(parsed_font_policy(FontId::CjkRegular, 1), ParsedFontPolicy::RawOnly);
    assert_eq!(parsed_font_policy(FontId::CjkFallback, 1), ParsedFontPolicy::RawOnly);
    assert_eq!(parsed_font_policy(FontId::EmojiFallback, 1), ParsedFontPolicy::RawOnly);
}

#[test]
fn face_index_comes_from_discovery_for_system_fonts_only() {
    let faces = SystemFaces { unicode: Some(2), fallback: None, emoji: Some(5) };
    assert_eq!(font_face_index(FontId::CjkRegular, &faces), 2);
    assert_eq!(font_face_index(FontId::CjkFallback, &faces), 0);
    assert_eq!(font_face_index(FontId::EmojiFallback, &faces), 5);
    assert_eq!(font_face_index(FontId::MainRegular, &faces), 0);
}

#[test]
fn bytes_that_are_no_font_fail_to_parse() {
    let err = parse_font_vec(FontId::MainRegular, vec![1, 2, 3], &NO_FACES).unwrap_err();
    assert_eq!(err, "Failed to parse font Main-Regular: InvalidFont");
}

#[test]
fn a_failed_parse_is_not_cached() {
    let mut ids = OutlineSourceIds::new();
    let raw = FontSet::from_fonts(vec![(FontId::MainRegular, vec![1, 2, 3])], &mut ids);
    let loaded = raw.iter_with_source();
    let mut cache = ParsedFontCache::new();
    let key = cache_key(&source_dir("/f"), FontId::MainRegular);
    let mut raw_cache = FontCache::new();
    let plan = FontLoadPlan::from_sets(FontIdSet::single(FontId::MainRegular), FontIdSet::new());
    let err = load_fonts_for_plan_parsed(&mut raw_cache, &mut cache, &mut ids, &source_dir("/f"), &NO_FACES, &plan, |_: FontId| -> Result<Option<FontStorage>, String> {
        Ok(Some(FontStorage::Owned(Arc::new(vec![1, 2, 3]))))
    })
    .unwrap_err();
    assert_eq!(err, "Failed to parse font Main-Regular: InvalidFont");
    assert_eq!(cache.len(), 0);
    assert!(!cache.contains_key(&key));
    assert_eq!(loaded.len(), 1);
}

#[test]
fn unavailable_fonts_are_cached_as_missing_and_large_ones_stay_raw() {
    let mut raw_cache = FontCache::new();
    let mut parsed = ParsedFontCache::new();
    let mut ids = OutlineSourceIds::new();
    let src = source_dir("/fonts");
    let plan = FontLoadPlan::from_sets(FontIdSet::single(FontId::MainRegular), FontIdSet::single(FontId::Size1Regular));
    let big = vec![0u8; PARSED_FONT_MAX_BYTES + 1];
    let set = load_fonts_for_plan_parsed(&mut raw_cache, &mut parsed, &mut ids, &src, &NO_FACES, &plan, |id: FontId| -> Result<Option<FontStorage>, String> {
        match id {
            FontId::MainRegular => Ok(Some(FontStorage::Owned(Arc::new(big.clone())))),
            _ => Ok(None),
        }
    })
    .unwrap();
    assert!(set.contains_key(&FontId::MainRegular));
    assert!(!set.contains_parsed(&FontId::MainRegular));
    assert!(set.get(&FontId::MainRegular).is_none());
    assert_eq!(set.iter_raw_with_source().len(), 1);
    assert!(!set.contains_key(&FontId::Size1Regular));
    assert!(matches!(parsed.get(&cache_key(&src, FontId::Size1Regular)), Some(ParsedFontCacheEntry::Missing)));
    assert!(!parsed.contains_key(&cache_key(&src, FontId::MainRegular)));
}

#[test]
fn system_font_loads_are_for_system_fonts() {
    let mut raw_cache = FontCache::new();
    let mut parsed = ParsedFontCache::new();
    let mut ids = OutlineSourceIds::new();
    let err = load_system_font_parsed(FontId::MainRegular, &mut raw_cache, &mut parsed, &mut ids, &NO_FACES, |_: FontId| -> Result<Option<FontStorage>, String> {
        Ok(None)
    })
    .unwrap_err();
    assert_eq!(err, "Main-Regular is not a system fallback font");

    let none = load_system_font_parsed(FontId::CjkRegular, &mut raw_cache, &mut parsed, &mut ids, &NO_FACES, |_: FontId| -> Result<Option<FontStorage>, String> {
        Ok(None)
    })
    .unwrap();
    assert!(none.is_none());

    let some = load_system_font_parsed(FontId::EmojiFallback, &mut raw_cache, &mut parsed, &mut ids, &NO_FACES, |_: FontId| -> Result<Option<FontStorage>, String> {
        Ok(Some(FontStorage::System(FontData::new(vec![4, 5]))))
    })
    .unwrap()
    .unwrap();
    assert!(some.contains_key(&FontId::EmojiFallback));
    assert_eq!(some.iter_raw_with_source()[0].1, [4u8, 5]);
}

#[test]
fn parsed_cache_budget_skips_oversized_entries() {
    let mut cache = ParsedFontCache::new();
    insert_parsed_cache_entry_with_limits(&mut cache, cache_key(&source_dir("/a"), FontId::MainRegular), ParsedFontCacheEntry::Missing, 1, 0);
    assert_eq!(cache.len(), 1);
    insert_parsed_cache_entry_with_limits(&mut cache, cache_key(&source_dir("/a"), FontId::MainBold), ParsedFontCacheEntry::Missing, 1, 0);
    assert_eq!(cache.len(), 1);
    assert!(cache.contains_key(&cache_key(&source_dir("/a"), FontId::MainBold)));
    assert_eq!(cache.bytes(), 0);
}

#[test]
fn missing_marker_matches_only_a_missing_raw_font() {
    let mut ids = OutlineSourceIds::new();
    let loaded = LoadedFont::new(FontStorage::Owned(Arc::new(vec![1])), &mut ids);
    assert!(parsed_entry_matches_raw(&ParsedFontCacheEntry::Missing, None));
    assert!(!parsed_entry_matches_raw(&ParsedFontCacheEntry::Missing, Some(&loaded)));
}

#[test]
fn get_or_parse_reports_parse_failures() {
    let mut ids = OutlineSourceIds::new();
    let loaded = LoadedFont::new(FontStorage::Owned(Arc::new(vec![1])), &mut ids);
    let mut cache = ParsedFontCache::new();
    let r = get_or_parse_cached(&mut cache, FontId::MainRegular, cache_key(&source_dir("/a"), FontId::MainRegular), &loaded, &NO_FACES);
    assert!(r.is_err());
    assert_eq!(cache.len(), 0);
}

#[test]
fn system_font_resolver_retains_one_parsed_face_per_render() {
    let mut calls = 0;
    let mut resolver: SystemFontResolver<(u32, &'static str)> = SystemFontResolver::new();
    let first = *resolver
        .get(FontId::CjkRegular, |_: FontId| -> Result<Option<(u32, &'static str)>, String> {
            calls += 1;
            Ok(Some((7, "face")))
        })
        .expect("system Unicode font should parse")
        .expect("system Unicode font is present");
    let second = *resolver
        .get(FontId::CjkRegular, |_: FontId| -> Result<Option<(u32, &'static str)>, String> {
            panic!("a resolved face must be reused")
        })
        .expect("cached system Unicode font should remain valid")
        .expect("system Unicode font disappeared within one render");
    assert_eq!(first, second);
    assert_eq!(calls, 1);
}

#[test]
fn system_font_resolver_rejects_non_system_fonts() {
    let mut resolver: SystemFontResolver<u8> = SystemFontResolver::new();
    assert!(resolver.get(FontId::MainRegular, |_: FontId| -> Result<Option<u8>, String> { Ok(Some(1)) }).is_err());
}

#[test]
fn system_font_resolver_reuses_errors_and_absence() {
    let mut resolver: SystemFontResolver<u8> = SystemFontResolver::new();
    let err = resolver.get(FontId::EmojiFallback, |_: FontId| -> Result<Option<u8>, String> { Err("broken".to_string()) });
    assert_eq!(err.unwrap_err(), "broken");
    let again = resolver.get(FontId::EmojiFallback, |_: FontId| -> Result<Option<u8>, String> { Ok(Some(1)) });
    assert_eq!(again.unwrap_err(), "broken");
    assert_eq!(resolver.get(FontId::CjkFallback, |_: FontId| -> Result<Option<u8>, String> { Ok(None) }), Ok(None));
    assert_eq!(resolver.get(FontId::CjkFallback, |_: FontId| -> Result<Option<u8>, String> { Ok(Some(3)) }), Ok(None));
}

/// The smallest face ttf-parser accepts: `head`, `hhea` and `maxp` tables
/// and one glyph.
fn minimal_font() -> Vec<u8> {
    fn be16(v: &mut Vec<u8>, x: u16) {
        v.extend_from_slice(&x.to_be_bytes());
    }
    fn be32(v: &mut Vec<u8>, x: u32) {
        v.extend_from_slice(&x.to_be_bytes());
    }
    let mut v = Vec::new();
    be32(&mut v, 0x0001_0000);
    be16(&mut v, 3);
    v.extend_from_slice(&[0; 6]);
    for (tag, offset, len) in [(b"head", 60u32, 54u32), (b"hhea", 114, 36), (b"maxp", 150, 6)] {
        v.extend_from_slice(tag);
        be32(&mut v, 0);
        be32(&mut v, offset);
        be32(&mut v, len);
    }
    // head
    be32(&mut v, 0x0001_0000);
    be32(&mut v, 0x0001_0000);
    be32(&mut v, 0);
    be32(&mut v, 0x5F0F_3CF5);
    be16(&mut v, 0);
    be16(&mut v, 1000);
    v.extend_from_slice(&[0; 16]);
    v.extend_from_slice(&[0; 8]);
    be16(&mut v, 0);
    be16(&mut v, 8);
    be16(&mut v, 2);
    be16(&mut v, 0);
    be16(&mut v, 0);
    // hhea
    be32(&mut v, 0x0001_0000);
    v.extend_from_slice(&[0; 30]);
    be16(&mut v, 1);
    // maxp
    be32(&mut v, 0x0000_5000);
    be16(&mut v, 1);
    v
}

#[test]
fn small_fonts_are_parsed_once_per_generation() {
    assert!(parse_font_vec(FontId::MainRegular, minimal_font(), &NO_FACES).is_ok());

    let mut raw_cache = FontCache::new();
    let mut parsed = ParsedFontCache::new();
    let mut ids = OutlineSourceIds::new();
    let src = source_dir("/fonts");
    let plan = FontLoadPlan::from_sets(FontIdSet::single(FontId::MainRegular), FontIdSet::new());
    let first = load_fonts_for_plan_parsed(&mut raw_cache, &mut parsed, &mut ids, &src, &NO_FACES, &plan, |_: FontId| -> Result<Option<FontStorage>, String> {
        Ok(Some(FontStorage::Owned(Arc::new(minimal_font()))))
    })
    .unwrap();
    assert!(first.get(&FontId::MainRegular).is_some());
    assert_eq!(first.iter().len(), 1);
    assert_eq!(first.iter_raw_with_source().len(), 0);
    assert_eq!(parsed.len(), 1);
    assert_eq!(parsed.bytes(), minimal_font().len());
    let (_, _, first_source) = first.iter_with_source()[0];

    // Everything is cached now: no loader call and the same generation.
    let second = load_fonts_for_plan_parsed(&mut raw_cache, &mut parsed, &mut ids, &src, &NO_FACES, &plan, |_: FontId| -> Result<Option<FontStorage>, String> {
        Err("must not be called".to_string())
    })
    .unwrap();
    let (_, _, second_source) = second.iter_with_source()[0];
    assert_eq!(first_source, second_source);
}

#[test]
fn parsed_cache_rejects_an_evicted_and_replaced_raw_font() {
    let mut raw_cache = FontCache::new();
    let mut parsed = ParsedFontCache::new();
    let mut ids = OutlineSourceIds::new();
    let src = source_dir("/fonts");
    let plan = FontLoadPlan::from_sets(FontIdSet::single(FontId::MainRegular), FontIdSet::new());
    let load = |_: FontId| -> Result<Option<FontStorage>, String> { Ok(Some(FontStorage::Owned(Arc::new(minimal_font())))) };
    let first = load_fonts_for_plan_parsed(&mut raw_cache, &mut parsed, &mut ids, &src, &NO_FACES, &plan, load).unwrap();
    let (_, _, first_source) = first.iter_with_source()[0];

    // The raw cache evicts the font while its parse stays cached; the file is
    // then read again as a new generation, which must not reuse the old parse.
    ratex::font_loader::remove_font_cache_entry(&mut raw_cache, &cache_key(&src, FontId::MainRegular));
    let second = load_fonts_for_plan_parsed(&mut raw_cache, &mut parsed, &mut ids, &src, &NO_FACES, &plan, load).unwrap();
    let (_, _, second_source) = second.iter_with_source()[0];
    assert_ne!(first_source, second_source);
    assert_eq!(parsed.len(), 1);
}

#[test]
fn parsed_loader_caches_unavailable_optional_font() {
    let mut raw_cache = FontCache::new();
    let mut parsed = ParsedFontCache::new();
    let mut ids = OutlineSourceIds::new();
    let font_dir = source_dir("/tmp/ratex-parsed-loader-test");
    let plan = FontLoadPlan::from_sets(FontIdSet::single(FontId::MainRegular), FontIdSet::single(FontId::Size1Regular));
    let load = |id: FontId| -> Result<Option<FontStorage>, String> {
        match id {
            FontId::MainRegular => Ok(Some(FontStorage::Owned(Arc::new(minimal_font())))),
            _ => Ok(None),
        }
    };

    let fonts = load_fonts_for_plan_parsed(&mut raw_cache, &mut parsed, &mut ids, &font_dir, &NO_FACES, &plan, load).expect("first parsed load");
    assert!(fonts.contains_key(&FontId::MainRegular));
    assert!(!fonts.contains_key(&FontId::Size1Regular));
    assert!(matches!(parsed.get(&cache_key(&font_dir, FontId::Size1Regular)), Some(ParsedFontCacheEntry::Missing)));

    // A second load observes the same cached result (the missing optional
    // font is a known `None`, so nothing is read again).
    let fonts = load_fonts_for_plan_parsed(&mut raw_cache, &mut parsed, &mut ids, &font_dir, &NO_FACES, &plan, |_: FontId| -> Result<Option<FontStorage>, String> {
        Err("must not be called".to_string())
    })
    .expect("second parsed load");
    assert!(fonts.contains_key(&FontId::MainRegular));
    assert!(!fonts.contains_key(&FontId::Size1Regular));
}

#[test]
fn parsed_loader_returns_raw_load_errors_unchanged() {
    let mut raw_cache = FontCache::new();
    let mut parsed = ParsedFontCache::new();
    let mut ids = OutlineSourceIds::new();
    let src = source_dir("/fonts");
    let plan = FontLoadPlan::from_sets(FontIdSet::single(FontId::MainRegular), FontIdSet::new());
    let err = load_fonts_for_plan_parsed(&mut raw_cache, &mut parsed, &mut ids, &src, &NO_FACES, &plan, |_: FontId| -> Result<Option<FontStorage>, String> {
        Err("Failed to read KaTeX_Main-Regular.ttf".to_string())
    })
    .unwrap_err();
    assert_eq!(err, "Failed to read KaTeX_Main-Regular.ttf");
    let err = load_fonts_for_plan_parsed(&mut raw_cache, &mut parsed, &mut ids, &src, &NO_FACES, &plan, |_: FontId| -> Result<Option<FontStorage>, String> {
        Ok(None)
    })
    .unwrap_err();
    assert_eq!(err, "Missing required font Main-Regular");
}

#[test]
fn system_faces_are_parsed_from_their_discovered_bytes() {
    let err = ratex::parsed_font::parse_system_face(FontId::MainRegular, None, &NO_FACES).err().unwrap();
    assert_eq!(err, "Main-Regular is not a system fallback font");
    assert!(ratex::parsed_font::parse_system_face(FontId::CjkRegular, None, &NO_FACES).unwrap().is_none());
    let junk = FontData::new(vec![1, 2, 3]);
    let err = ratex::parsed_font::parse_system_face(FontId::EmojiFallback, Some(&junk), &NO_FACES).err().unwrap();
    assert_eq!(err, "Failed to parse font Emoji-Fallback: InvalidFont");
    let font = FontData::new(minimal_font());
    assert!(ratex::parsed_font::parse_system_face(FontId::CjkFallback, Some(&font), &NO_FACES).unwrap().is_some());
}

#[test]
fn parsing_a_raw_load_keeps_its_fonts_and_generations() {
    let mut ids = OutlineSourceIds::new();
    let raw = FontSet::from_fonts(vec![(FontId::MainRegular, minimal_font())], &mut ids);
    let raw_source = raw.source_id(&FontId::MainRegular).unwrap();
    let mut parsed = ParsedFontCache::new();
    let src = source_dir("/fonts");
    let plan = FontLoadPlan::from_sets(FontIdSet::single(FontId::MainRegular), FontIdSet::single(FontId::Size1Regular));
    let set = ratex::parsed_font::parse_loaded_fonts(&mut parsed, &src, &NO_FACES, &plan, &raw).ok().unwrap();
    assert!(set.get(&FontId::MainRegular).is_some());
    assert_eq!(set.iter_with_source()[0].2, raw_source);
    assert!(!set.contains_key(&FontId::Size1Regular));
    assert!(matches!(parsed.get(&cache_key(&src, FontId::Size1Regular)), Some(ParsedFontCacheEntry::Missing)));

    let needs_ams = FontLoadPlan::from_sets(FontIdSet::single(FontId::AmsRegular), FontIdSet::single(FontId::MainRegular));
    let err = ratex::parsed_font::parse_loaded_fonts(&mut parsed, &src, &NO_FACES, &needs_ams, &raw).err().unwrap();
    assert_eq!(err, "Missing required font AMS-Regular");
}
