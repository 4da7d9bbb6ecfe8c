use ratex::unicode_font::{
    emoji_font_data_ref, emoji_font_face_index, fallback_font_data_ref, fallback_font_face_index,
    load_emoji_font_arc, load_emoji_font_data, load_fallback_font_arc, load_fallback_font_data,
    load_unicode_font_arc, load_unicode_font_data, unicode_font_data_ref, unicode_font_face_index,
    FontData, FontDiscovery,
};

fn found(bytes: &[u8], index: u32) -> Option<(FontData, u32)> {
    Some((FontData::new(bytes.to_vec()), index))
}

fn never() -> Option<(FontData, u32)> {
    panic!("discovery must not run again")
}

#[test]
fn user_override_wins_and_is_remembered() {
    let mut d = FontDiscovery::new();
    let data = load_unicode_font_data(&mut d, || found(&[1, 2], 3), never).unwrap();
    assert_eq!(data.as_slice(), [1, 2]);
    assert_eq!(unicode_font_face_index(&mut d, never, never), Some(3));
    assert_eq!(unicode_font_data_ref(&mut d, never, never).unwrap().as_slice(), [1, 2]);
    assert_eq!(load_unicode_font_arc(&mut d, never, never).unwrap().as_slice(), [1, 2]);
}

#[test]
fn without_override_the_primary_shares_the_system_fallback() {
    let mut d = FontDiscovery::new();
    let data = load_unicode_font_data(&mut d, || None, || found(&[9], 1)).unwrap();
    assert_eq!(data.as_slice(), [9]);
    // The system fallback was resolved along the way and is not searched again.
    assert_eq!(load_fallback_font_data(&mut d, never).unwrap().as_slice(), [9]);
    assert_eq!(fallback_font_face_index(&mut d, never), Some(1));
    assert_eq!(fallback_font_data_ref(&mut d, never).unwrap().as_slice(), [9]);
    assert_eq!(load_fallback_font_arc(&mut d, never).unwrap().as_slice(), [9]);
}

#[test]
fn a_missing_font_is_remembered_as_missing() {
    let mut d = FontDiscovery::new();
    assert!(load_emoji_font_data(&mut d, || None).is_none());
    assert!(emoji_font_data_ref(&mut d, never).is_none());
    assert_eq!(emoji_font_face_index(&mut d, never), None);
    assert!(load_emoji_font_arc(&mut d, never).is_none());
}

#[test]
fn emoji_and_system_fallback_are_separate_roles() {
    let mut d = FontDiscovery::new();
    assert_eq!(load_emoji_font_data(&mut d, || found(&[5], 0)).unwrap().as_slice(), [5]);
    assert_eq!(load_fallback_font_data(&mut d, || found(&[6], 2)).unwrap().as_slice(), [6]);
    assert_eq!(emoji_font_face_index(&mut d, never), Some(0));
    assert_eq!(fallback_font_face_index(&mut d, never), Some(2));
}
