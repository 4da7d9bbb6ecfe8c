use ratex::unicode_font::{
    discover_emoji_font, discover_system_font, face_index_for_family, first_loading_spec, is_emoji_candidate,
    is_sfnt_container, is_sfnt_single_font, is_ttc_path, load_font_spec, parse_font_spec, system_candidate_spec,
    FaceSelector, FontData,
};

#[test]
fn emoji_candidate_filter_excludes_normal_math_and_cjk() {
    assert!(!is_emoji_candidate('x'));
    assert!(!is_emoji_candidate('∫'));
    assert!(!is_emoji_candidate('你'));
    assert!(is_emoji_candidate('😊'));
    assert!(is_emoji_candidate('✅'));
}

#[test]
fn emoji_candidate_filter_covers_emoji_property_edges() {
    for ch in ['#', '↔', '⌨', '☀', '⚕', '🛝', '🫨'] {
        assert!(is_emoji_candidate(ch), "{ch:?} should reach emoji fallback");
    }
}

/// A single-font TrueType header: version 1.0 and a table count.
fn ttf_bytes() -> Vec<u8> {
    vec![0, 1, 0, 0, 0, 0, 0, 0, 0, 0, 0, 0]
}

/// A collection header holding `count` faces.
fn ttc_bytes(count: u32) -> Vec<u8> {
    let mut v = vec![b't', b't', b'c', b'f', 0, 1, 0, 0];
    v.extend_from_slice(&count.to_be_bytes());
    v
}

#[test]
fn test_load_font_spec_macos() {
    // The same checks as on macOS, with the file's bytes handed in by the
    // reader instead of read from /Library/Fonts.
    let ttf = "/Library/Fonts/Arial Unicode.ttf";
    let read = |_: String| Some(FontData::new(ttf_bytes()));

    let result = load_font_spec(ttf, read);
    assert!(result.is_some(), "Should load Arial Unicode.ttf");
    if let Some((bytes, face_index)) = result {
        assert!(!bytes.as_slice().is_empty());
        assert_eq!(face_index, 0);
    }

    let result = load_font_spec(&format!("{ttf}#0"), read);
    assert!(result.is_some(), "Should load Arial Unicode.ttf#0");
    if let Some((_, face_index)) = result {
        assert_eq!(face_index, 0);
    }

    let result = load_font_spec(&format!("{ttf}#1"), read);
    assert!(result.is_none(), "Should fail for TTF with index > 0");

    let result = load_font_spec(&format!("{ttf}#Arial Unicode MS"), read);
    assert!(result.is_none(), "Should fail for TTF with family selector");
}

#[test]
fn collection_index_is_checked_against_the_face_count() {
    let read = |_: String| Some(FontData::new(ttc_bytes(3)));
    let ok = load_font_spec("/fonts/a.ttc#2", read);
    assert_eq!(ok.map(|(_, i)| i), Some(2));
    let out_of_range = load_font_spec("/fonts/a.ttc#3", read);
    assert!(out_of_range.is_none());
}

#[test]
fn collection_family_selector_picks_the_first_face_listing_the_family() {
    let faces = vec![
        (0u32, vec!["Noto Sans CJK JP".to_string()]),
        (1u32, vec!["Noto Sans CJK SC".to_string(), "Noto Sans CJK".to_string()]),
        (2u32, vec!["Noto Sans CJK SC".to_string()]),
    ];
    assert_eq!(face_index_for_family(&faces, "Noto Sans CJK SC"), Some(1));
    assert_eq!(face_index_for_family(&faces, "Noto Sans CJK JP"), Some(0));
    assert_eq!(face_index_for_family(&faces, "Noto Sans"), None);
    assert_eq!(face_index_for_family(&Vec::new(), "Noto Sans CJK SC"), None);
    // A collection header with no readable faces names no family.
    let read = |_: String| Some(FontData::new(ttc_bytes(4)));
    assert!(load_font_spec("/fonts/a.ttc#Noto Sans CJK SC", read).is_none());
}

#[test]
fn unreadable_or_non_font_files_are_rejected() {
    assert!(load_font_spec("/nowhere.ttf", |_: String| None).is_none());
    let text = |_: String| Some(FontData::new(b"hello world!".to_vec()));
    assert!(load_font_spec("/notes.txt", text).is_none());
}

#[test]
fn font_spec_splits_at_the_last_hash() {
    let spec = parse_font_spec("/a#b/font.ttc#2");
    assert_eq!(spec.path, "/a#b/font.ttc");
    assert!(matches!(spec.selector, Some(FaceSelector::Index(2))));
    let plain = parse_font_spec("/fonts/x.ttf");
    assert_eq!(plain.path, "/fonts/x.ttf");
    assert!(plain.selector.is_none());
}

#[test]
fn sfnt_magic_numbers() {
    assert!(is_sfnt_single_font(&ttf_bytes()));
    assert!(is_sfnt_single_font(b"OTTO\0\0\0\0"));
    assert!(!is_sfnt_single_font(b"ttcf"));
    assert!(is_sfnt_container(&ttc_bytes(1)));
    assert!(is_sfnt_container(&ttf_bytes()));
    assert!(!is_sfnt_container(b"PK\x03\x04"));
}

#[test]
fn font_data_views_its_bytes() {
    let data = FontData::new(vec![1, 2, 3]);
    assert_eq!(data.len(), 3);
    assert!(!data.is_empty());
    assert_eq!(data.as_slice(), [1, 2, 3]);
    let copy = data.clone();
    assert_eq!(copy.as_slice(), data.as_slice());
    assert!(FontData::new(Vec::new()).is_empty());
}

#[test]
fn ttc_files_are_named_with_their_family() {
    assert!(is_ttc_path("/fonts/NotoSansCJK.ttc"));
    assert!(is_ttc_path("/fonts/a.TTC"));
    assert!(is_ttc_path("C:\\Windows\\Fonts\\msyh.TtC"));
    assert!(!is_ttc_path("/fonts/a.ttf"));
    assert!(!is_ttc_path("/fonts/.ttc"));
    assert!(!is_ttc_path("/fonts.ttc/a"));
    assert!(!is_ttc_path("ttc"));
    assert_eq!(system_candidate_spec("/f/a.ttc", "Noto Sans CJK SC"), "/f/a.ttc#Noto Sans CJK SC");
    assert_eq!(system_candidate_spec("/f/a.otf", "Noto Sans"), "/f/a.otf");
}

fn read_by_path(path: String) -> Option<FontData> {
    match path.as_str() {
        "/a.ttf" => Some(FontData::new(ttf_bytes())),
        "/b.ttc" => Some(FontData::new(ttc_bytes(3))),
        "/text" => Some(FontData::new(b"not a font..".to_vec())),
        _ => None,
    }
}

#[test]
fn the_first_candidate_that_loads_wins() {
    let specs = vec!["/missing.ttf".to_string(), "/text".to_string(), "/b.ttc#2".to_string(), "/a.ttf".to_string()];
    let (data, index) = first_loading_spec(&specs, read_by_path).unwrap();
    assert_eq!(index, 2);
    assert_eq!(data.as_slice(), ttc_bytes(3).as_slice());
    assert!(first_loading_spec(&vec!["/missing".to_string(), "/b.ttc#3".to_string()], read_by_path).is_none());
}

#[test]
fn built_in_candidates_come_before_the_system_lookup() {
    let builtin = vec!["/missing.ttf".to_string(), "/a.ttf".to_string()];
    let found = discover_system_font(&builtin, || -> Vec<(String, String)> { panic!("not asked") }, read_by_path).unwrap();
    assert_eq!(found.1, 0);
    let none = vec!["/missing.ttf".to_string()];
    let found = discover_system_font(
        &none,
        || vec![("/text".to_string(), "X".to_string()), ("/b.ttc".to_string(), "Y".to_string()), ("/a.ttf".to_string(), "Z".to_string())],
        read_by_path,
    )
    .unwrap();
    // `/b.ttc#Y` names a family no face lists, so the single font wins.
    assert_eq!(found.0.as_slice(), ttf_bytes().as_slice());
    assert!(discover_system_font(&none, || Vec::new(), read_by_path).is_none());
}

#[test]
fn emoji_query_results_must_be_fonts_with_a_face_in_the_file() {
    let none = vec!["/missing#0".to_string()];
    let direct = vec!["/a.ttf#0".to_string()];
    assert_eq!(discover_emoji_font(&direct, || -> Option<(FontData, u32)> { panic!("not asked") }, read_by_path).unwrap().1, 0);
    assert_eq!(discover_emoji_font(&none, || Some((FontData::new(ttc_bytes(3)), 2)), read_by_path).unwrap().1, 2);
    assert!(discover_emoji_font(&none, || Some((FontData::new(ttc_bytes(3)), 3)), read_by_path).is_none());
    assert!(discover_emoji_font(&none, || Some((FontData::new(ttf_bytes()), 1)), read_by_path).is_none());
    assert!(discover_emoji_font(&none, || Some((FontData::new(b"plain text..".to_vec()), 0)), read_by_path).is_none());
    assert!(discover_emoji_font(&none, || None, read_by_path).is_none());
}
