use ratex::layout_rules::{
    apply_bin_cancellation, is_arrow_accent, is_css_bold, is_css_italic, is_double_vert_delim,
    is_math_italic_greek, is_vert_delim, mclass_str_to_math_class, normalize_delim,
    tall_vert_svg_path_data, MathClass,
};


#[test]
fn binary_operator_between_ordinals_stays_binary() {
    let raw = [Some(MathClass::Ord), Some(MathClass::Bin), Some(MathClass::Ord)];
    assert_eq!(apply_bin_cancellation(&raw), vec![Some(MathClass::Ord), Some(MathClass::Bin), Some(MathClass::Ord)]);
}

#[test]
fn binary_operator_at_the_edges_becomes_ordinary() {
    assert_eq!(apply_bin_cancellation(&[Some(MathClass::Bin), Some(MathClass::Ord)]), vec![Some(MathClass::Ord), Some(MathClass::Ord)]);
    assert_eq!(apply_bin_cancellation(&[Some(MathClass::Ord), Some(MathClass::Bin)]), vec![Some(MathClass::Ord), Some(MathClass::Ord)]);
    assert_eq!(apply_bin_cancellation(&[Some(MathClass::Bin)]), vec![Some(MathClass::Ord)]);
    assert_eq!(apply_bin_cancellation(&[]), Vec::<Option<MathClass>>::new());
}

#[test]
fn left_and_right_cancellers() {
    for prev in [MathClass::Open, MathClass::Rel, MathClass::Op, MathClass::Punct] {
        let out = apply_bin_cancellation(&[Some(prev), Some(MathClass::Bin), Some(MathClass::Ord)]);
        assert_eq!(out[1], Some(MathClass::Ord), "{prev:?} cancels a following MathClass::Bin");
    }
    // A binary operator that stays binary cancels the next one.
    let out = apply_bin_cancellation(&[Some(MathClass::Ord), Some(MathClass::Bin), Some(MathClass::Bin), Some(MathClass::Ord)]);
    assert_eq!(out[2], Some(MathClass::Ord));
    // One that became ordinary at the start of the list does not.
    let out = apply_bin_cancellation(&[Some(MathClass::Bin), Some(MathClass::Bin), Some(MathClass::Ord)]);
    assert_eq!(out, vec![Some(MathClass::Ord), Some(MathClass::Bin), Some(MathClass::Ord)]);
    for next in [MathClass::Rel, MathClass::Close, MathClass::Punct] {
        let out = apply_bin_cancellation(&[Some(MathClass::Ord), Some(MathClass::Bin), Some(next)]);
        assert_eq!(out[1], Some(MathClass::Ord), "{next:?} cancels a preceding MathClass::Bin");
    }
    for prev in [MathClass::Ord, MathClass::Close, MathClass::Inner] {
        let out = apply_bin_cancellation(&[Some(prev), Some(MathClass::Bin), Some(MathClass::Inner)]);
        assert_eq!(out[1], Some(MathClass::Bin));
    }
    // With no classed atom before it, a binary operator is at the start of the list.
    assert_eq!(apply_bin_cancellation(&[None, Some(MathClass::Bin), Some(MathClass::Ord)])[1], Some(MathClass::Ord));
}

#[test]
fn cancellation_reads_the_updated_previous_class() {
    // `a + + b`: the second Bin follows a Bin and turns ordinary; the first
    // keeps its class because its right neighbour is Bin, not Rel/Close/Punct.
    let raw = [Some(MathClass::Ord), Some(MathClass::Bin), Some(MathClass::Bin), Some(MathClass::Ord)];
    assert_eq!(apply_bin_cancellation(&raw), vec![Some(MathClass::Ord), Some(MathClass::Bin), Some(MathClass::Ord), Some(MathClass::Ord)]);
    // `( + + b`: the first Bin turns ordinary after Open, so the second one
    // follows an ordinary atom and stays binary.
    let raw = [Some(MathClass::Open), Some(MathClass::Bin), Some(MathClass::Bin), Some(MathClass::Ord)];
    assert_eq!(apply_bin_cancellation(&raw), vec![Some(MathClass::Open), Some(MathClass::Ord), Some(MathClass::Bin), Some(MathClass::Ord)]);
}

#[test]
fn cancellation_skips_entries_without_a_class() {
    let raw = [Some(MathClass::Ord), None, Some(MathClass::Bin), Some(MathClass::Ord)];
    assert_eq!(apply_bin_cancellation(&raw), vec![Some(MathClass::Ord), None, Some(MathClass::Bin), Some(MathClass::Ord)]);
    let raw = [Some(MathClass::Ord), Some(MathClass::Bin), None, Some(MathClass::Rel)];
    assert_eq!(apply_bin_cancellation(&raw), vec![Some(MathClass::Ord), Some(MathClass::Ord), None, Some(MathClass::Rel)]);
    let raw = [Some(MathClass::Rel), None, Some(MathClass::Bin), Some(MathClass::Ord)];
    assert_eq!(apply_bin_cancellation(&raw), vec![Some(MathClass::Rel), None, Some(MathClass::Ord), Some(MathClass::Ord)]);
    let raw = [Some(MathClass::Ord), Some(MathClass::Bin), None];
    assert_eq!(apply_bin_cancellation(&raw), vec![Some(MathClass::Ord), Some(MathClass::Ord), None]);
}

#[test]
fn cancellation_is_idempotent_on_an_example() {
    let raw = [Some(MathClass::Bin), Some(MathClass::Ord), Some(MathClass::Bin), Some(MathClass::Bin), Some(MathClass::Open), Some(MathClass::Bin), Some(MathClass::Ord), Some(MathClass::Bin), Some(MathClass::Rel)];
    let once = apply_bin_cancellation(&raw);
    let twice = apply_bin_cancellation(&once);
    assert_eq!(once, twice);
}

#[test]
fn mclass_names() {
    assert_eq!(mclass_str_to_math_class("mord"), MathClass::Ord);
    assert_eq!(mclass_str_to_math_class("mop"), MathClass::Op);
    assert_eq!(mclass_str_to_math_class("mbin"), MathClass::Bin);
    assert_eq!(mclass_str_to_math_class("mrel"), MathClass::Rel);
    assert_eq!(mclass_str_to_math_class("mopen"), MathClass::Open);
    assert_eq!(mclass_str_to_math_class("mclose"), MathClass::Close);
    assert_eq!(mclass_str_to_math_class("mpunct"), MathClass::Punct);
    assert_eq!(mclass_str_to_math_class("minner"), MathClass::Inner);
    assert_eq!(mclass_str_to_math_class("mfoo"), MathClass::Ord);
}

#[test]
fn greek_in_math_italic() {
    assert!(is_math_italic_greek('α'));
    assert!(is_math_italic_greek('ω'));
    assert!(is_math_italic_greek('ϑ'));
    assert!(is_math_italic_greek('ϵ'));
    assert!(!is_math_italic_greek('Ω'));
    assert!(!is_math_italic_greek('a'));
}

#[test]
fn arrow_accents() {
    assert!(is_arrow_accent("\\overrightarrow"));
    assert!(is_arrow_accent("\\underlinesegment"));
    assert!(!is_arrow_accent("\\widehat"));
}

#[test]
fn delimiter_aliases() {
    assert_eq!(normalize_delim("<"), "\\langle");
    assert_eq!(normalize_delim("\\lt"), "\\langle");
    assert_eq!(normalize_delim("\u{27E8}"), "\\langle");
    assert_eq!(normalize_delim(">"), "\\rangle");
    assert_eq!(normalize_delim("\\gt"), "\\rangle");
    assert_eq!(normalize_delim("\u{27E9}"), "\\rangle");
    assert_eq!(normalize_delim("("), "(");
    assert!(is_vert_delim("|") && is_vert_delim("\\lvert"));
    assert!(!is_vert_delim("\\|"));
    assert!(is_double_vert_delim("\\|") && is_double_vert_delim("\\rVert"));
    assert!(!is_double_vert_delim("|"));
}

#[test]
fn tall_vert_path_inserts_the_middle_run() {
    let single = tall_vert_svg_path_data(120, false);
    assert_eq!(
        single,
        "M145 15 v585 v120 v585 c2.667,10,9.667,15,21,15 c10,0,16.667,-5,20,-15 v-585 v-120 v-585 c-2.667,-10,-9.667,-15,-21,-15 c-10,0,-16.667,5,-20,15z M188 15 H145 v585 v120 v585 h43z"
    );
    let double = tall_vert_svg_path_data(-7, true);
    assert!(double.starts_with("M145 15 v585 v-7 v585"));
    assert!(double.contains(" v-585 v7 v-585"));
    assert!(double.ends_with("M410 15 H367 v585 v-7 v585 h43z"));
    assert_eq!(tall_vert_svg_path_data(0, false).matches("v0").count(), 3);
}

#[test]
fn css_weights_and_styles() {
    assert!(is_css_bold("bold"));
    assert!(is_css_bold("  BOLDER \t"));
    assert!(is_css_bold("600"));
    assert!(is_css_bold("+900"));
    assert!(!is_css_bold("599"));
    assert!(!is_css_bold("normal"));
    assert!(!is_css_bold("65536"));
    assert!(!is_css_bold("6 00"));
    assert!(is_css_italic(" Italic"));
    assert!(is_css_italic("oblique"));
    assert!(!is_css_italic("normal"));
}
