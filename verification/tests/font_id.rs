use ratex::font_id::{FontId, FONT_ID_COUNT};

#[test]
fn names_round_trip_through_parse() {
    for i in 0..FONT_ID_COUNT {
        let id = FontId::from_index(i);
        assert_eq!(id.index(), i);
        assert_eq!(FontId::parse(id.as_str()), Some(id));
    }
}

#[test]
fn parse_rejects_unknown_names() {
    assert_eq!(FontId::parse("Main-Regular"), Some(FontId::MainRegular));
    assert_eq!(FontId::parse("CJK-Regular"), Some(FontId::CjkRegular));
    assert_eq!(FontId::parse("main-regular"), None);
    assert_eq!(FontId::parse(""), None);
}
