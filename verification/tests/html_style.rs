use ratex::html_style::parse_html_style;

#[test]
fn declarations_are_read_in_order() {
    let s = parse_html_style("color: red; font-weight: bold");
    assert_eq!(s.color.as_deref(), Some("red"));
    assert!(s.bold);
    assert!(!s.italic);
    assert!(s.font_size.is_none());
    assert!(s.background_color.is_none());
    assert!(!s.underline);
}

#[test]
fn properties_are_case_insensitive_and_later_ones_win() {
    let s = parse_html_style(" COLOR : Blue ;color:green ");
    assert_eq!(s.color.as_deref(), Some("green"));
    let s = parse_html_style("font-weight: bold; font-weight: normal");
    assert!(!s.bold);
    let s = parse_html_style("font-weight: 700");
    assert!(s.bold);
}

#[test]
fn sizes_backgrounds_and_styles() {
    let s = parse_html_style("font-size: 12px; background: #fff; font-style: Oblique");
    assert_eq!(s.font_size.as_deref(), Some("12px"));
    assert_eq!(s.background_color.as_deref(), Some("#fff"));
    assert!(s.italic);
    let s = parse_html_style("background-color:rgb(1,2,3)");
    assert_eq!(s.background_color.as_deref(), Some("rgb(1,2,3)"));
}

#[test]
fn underline_is_a_whole_word_of_text_decoration() {
    assert!(parse_html_style("text-decoration: underline overline").underline);
    assert!(parse_html_style("TEXT-DECORATION-LINE: UNDERLINE").underline);
    assert!(!parse_html_style("text-decoration: underlines").underline);
    assert!(!parse_html_style("text-decoration: none").underline);
    assert!(parse_html_style("text-decoration: overline\tunderline").underline);
}

#[test]
fn pieces_without_a_colon_or_unknown_properties_change_nothing() {
    let s = parse_html_style("no colon here; :; margin: 3px;;");
    assert!(s.color.is_none() && s.font_size.is_none() && s.background_color.is_none());
    assert!(!s.bold && !s.italic && !s.underline);
    // Only the first colon separates property from value.
    let s = parse_html_style("color: url(a:b)");
    assert_eq!(s.color.as_deref(), Some("url(a:b)"));
    let s = parse_html_style("");
    assert!(s.color.is_none());
}
