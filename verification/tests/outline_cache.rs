use std::sync::Arc;

use ratex::font_id::FontId;
use ratex::font_loader::OutlineSourceIds;
use ratex::outline_cache::{get_or_compute_outline, insert_outline, outline_cache_key, OutlineCache};
use ratex::parsed_font::SystemFaces;

const NO_FACES: SystemFaces = SystemFaces { unicode: None, fallback: None, emoji: None };

#[test]
fn outline_cache_key_includes_source_face_and_glyph() {
    let mut ids = OutlineSourceIds::new();
    let source_a = ids.fresh();
    let source_b = ids.fresh();
    let base = outline_cache_key(source_a, FontId::MainRegular, 10, &NO_FACES);
    let same = outline_cache_key(source_a, FontId::MainRegular, 10, &NO_FACES);
    let other_source = outline_cache_key(source_b, FontId::MainRegular, 10, &NO_FACES);
    let other_glyph = outline_cache_key(source_a, FontId::MainRegular, 11, &NO_FACES);

    assert_eq!(base, same);
    assert_ne!(base, other_source);
    assert_ne!(base, other_glyph);
}

#[test]
fn outline_cache_clears_before_exceeding_capacity() {
    let mut ids = OutlineSourceIds::new();
    let source = ids.fresh();
    let key_a = outline_cache_key(source, FontId::MainRegular, 10, &NO_FACES);
    let key_b = outline_cache_key(source, FontId::MainRegular, 11, &NO_FACES);
    let curves: Arc<Vec<u8>> = Arc::new(Vec::new());
    let mut cache = OutlineCache::new();

    insert_outline(&mut cache, key_a, Arc::clone(&curves), 1);
    assert!(cache.contains_key(&key_a));

    insert_outline(&mut cache, key_b, curves, 1);
    assert_eq!(cache.len(), 1);
    assert!(!cache.contains_key(&key_a));
    assert!(cache.contains_key(&key_b));
}

#[test]
fn a_cached_outline_wins_over_a_new_one() {
    let mut ids = OutlineSourceIds::new();
    let key = outline_cache_key(ids.fresh(), FontId::MainBold, 3, &NO_FACES);
    let mut cache = OutlineCache::new();
    let first = insert_outline(&mut cache, key, Arc::new(vec![1u8]), 8);
    let second = insert_outline(&mut cache, key, Arc::new(vec![2u8]), 8);
    assert_eq!(*first, vec![1]);
    assert_eq!(*second, vec![1]);
    assert!(Arc::ptr_eq(&first, &second));
}

#[test]
fn compute_runs_only_on_a_miss() {
    let mut ids = OutlineSourceIds::new();
    let key = outline_cache_key(ids.fresh(), FontId::MainRegular, 7, &SystemFaces { unicode: Some(1), fallback: None, emoji: None });
    let mut cache: OutlineCache<Vec<u8>> = OutlineCache::new();
    assert!(get_or_compute_outline(&mut cache, key, || None).is_none());
    assert_eq!(cache.len(), 0);
    let v = get_or_compute_outline(&mut cache, key, || Some(Arc::new(vec![5u8]))).unwrap();
    assert_eq!(*v, vec![5]);
    let again = get_or_compute_outline(&mut cache, key, || -> Option<Arc<Vec<u8>>> { panic!("must not recompute") }).unwrap();
    assert_eq!(*again, vec![5]);
}

#[test]
fn system_fonts_key_on_their_discovered_face() {
    let mut ids = OutlineSourceIds::new();
    let s = ids.fresh();
    let faces = SystemFaces { unicode: Some(3), fallback: None, emoji: None };
    assert_eq!(outline_cache_key(s, FontId::CjkRegular, 1, &faces).face_index, 3);
    assert_eq!(outline_cache_key(s, FontId::MainRegular, 1, &faces).face_index, 0);
}
