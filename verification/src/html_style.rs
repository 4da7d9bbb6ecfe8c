//! The CSS declarations `\htmlStyle` understands: `color`, `font-size`,
//! `font-weight`, `font-style`, `background`/`background-color` and
//! `text-decoration`/`text-decoration-line`, read from a `style` attribute.

use vstd::prelude::*;

use crate::layout_rules::{css_bold_spec, css_italic_spec, is_css_bold, is_css_italic};
use crate::text::{
    ascii_lower, chars_of, eq_ignore_ascii_case_spec, is_white_space, is_whitespace,
    string_from_chars, to_ascii_lower, trim, trim_spec,
};

verus! {

/// The style a `style` attribute asks for. Colours and the font size are
/// kept as the text of the last declaration that set them (`None` when no
/// declaration did); interpreting that text is the caller's work.
#[derive(Debug)]
pub struct HtmlStyle {
    pub color: Option<String>,
    pub font_size: Option<String>,
    pub bold: bool,
    pub italic: bool,
    pub background_color: Option<String>,
    pub underline: bool,
}

pub struct HtmlStyleView {
    pub color: Option<Seq<char>>,
    pub font_size: Option<Seq<char>>,
    pub bold: bool,
    pub italic: bool,
    pub background_color: Option<Seq<char>>,
    pub underline: bool,
}

pub open spec fn opt_view(s: Option<String>) -> Option<Seq<char>> {
    match s {
        Some(x) => Some(x@),
        None => None,
    }
}

impl View for HtmlStyle {
    type V = HtmlStyleView;

    open spec fn view(&self) -> HtmlStyleView {
        HtmlStyleView {
            color: opt_view(self.color),
            font_size: opt_view(self.font_size),
            bold: self.bold,
            italic: self.italic,
            background_color: opt_view(self.background_color),
            underline: self.underline,
        }
    }
}

pub open spec fn default_style() -> HtmlStyleView {
    HtmlStyleView { color: None, font_size: None, bold: false, italic: false, background_color: None, underline: false }
}

/// `str::split(sep)`: the pieces between separators, empty ones included.
pub open spec fn split_pieces(s: Seq<char>, sep: char) -> Seq<Seq<char>>
    decreases s.len(),
{
    if s.len() == 0 {
        seq![Seq::<char>::empty()]
    } else {
        let p = split_pieces(s.drop_last(), sep);
        if s.last() == sep {
            p.push(Seq::<char>::empty())
        } else {
            p.update(p.len() - 1, p.last().push(s.last()))
        }
    }
}

proof fn lemma_split_nonempty(s: Seq<char>, sep: char)
    ensures
        split_pieces(s, sep).len() >= 1,
    decreases s.len(),
{
    if s.len() > 0 {
        lemma_split_nonempty(s.drop_last(), sep);
    }
}

/// `k` is the position of the first `:` of `s`.
pub open spec fn first_colon_at(s: Seq<char>, k: int) -> bool {
    0 <= k < s.len() && s[k] == ':' && forall|j: int| 0 <= j < k ==> s[j] != ':'
}

/// `v` holds `w` (no white space in it) as a whole white-space separated
/// word, ignoring ASCII case.
pub open spec fn has_word_ignore_case(v: Seq<char>, w: Seq<char>) -> bool {
    exists|i: int|
        #![trigger v.subrange(i, i + w.len())]
        0 <= i && i + w.len() <= v.len() && eq_ignore_ascii_case_spec(v.subrange(i, i + w.len()), w)
            && (i == 0 || is_white_space(v[i - 1])) && (i + w.len() == v.len() || is_white_space(v[i + w.len()]))
}

pub open spec fn lower_seq(s: Seq<char>) -> Seq<char> {
    s.map_values(|c: char| ascii_lower(c))
}

/// One declaration `property: value` applied to the style; a piece with no
/// `:` and an unknown property change nothing.
pub open spec fn apply_declaration(st: HtmlStyleView, decl: Seq<char>) -> HtmlStyleView {
    if exists|k: int| first_colon_at(decl, k) {
        let k = choose|k: int| first_colon_at(decl, k);
        let property = lower_seq(trim_spec(decl.subrange(0, k)));
        let value = trim_spec(decl.subrange(k + 1, decl.len() as int));
        if property == "color"@ {
            HtmlStyleView { color: Some(value), ..st }
        } else if property == "font-size"@ {
            HtmlStyleView { font_size: Some(value), ..st }
        } else if property == "font-weight"@ {
            HtmlStyleView { bold: css_bold_spec(value), ..st }
        } else if property == "font-style"@ {
            HtmlStyleView { italic: css_italic_spec(value), ..st }
        } else if property == "background"@ || property == "background-color"@ {
            HtmlStyleView { background_color: Some(value), ..st }
        } else if property == "text-decoration"@ || property == "text-decoration-line"@ {
            HtmlStyleView { underline: has_word_ignore_case(value, "underline"@), ..st }
        } else {
            st
        }
    } else {
        st
    }
}

/// The property a declaration names, lower-cased and trimmed; `None` for a
/// piece with no `:`.
pub open spec fn declared_property(decl: Seq<char>) -> Option<Seq<char>> {
    if exists|k: int| first_colon_at(decl, k) {
        let k = choose|k: int| first_colon_at(decl, k);
        Some(lower_seq(trim_spec(decl.subrange(0, k))))
    } else {
        None
    }
}

/// A declaration changes only the field of the property it names:
/// `font-weight` only `bold`, `font-style` only `italic`, `color` only the
/// color, `font-size` only the size, `background` / `background-color` only
/// the background, and `text-decoration` / `text-decoration-line` only the
/// underline.
pub proof fn law_a_declaration_sets_only_its_own_field(st: HtmlStyleView, decl: Seq<char>)
    ensures
        apply_declaration(st, decl).bold != st.bold ==> declared_property(decl) == Some("font-weight"@),
        apply_declaration(st, decl).italic != st.italic ==> declared_property(decl) == Some("font-style"@),
        apply_declaration(st, decl).color != st.color ==> declared_property(decl) == Some("color"@),
        apply_declaration(st, decl).font_size != st.font_size ==> declared_property(decl) == Some("font-size"@),
        apply_declaration(st, decl).background_color != st.background_color ==> declared_property(decl) == Some("background"@)
            || declared_property(decl) == Some("background-color"@),
        apply_declaration(st, decl).underline != st.underline ==> declared_property(decl) == Some("text-decoration"@)
            || declared_property(decl) == Some("text-decoration-line"@),
{
}

/// The declarations applied in order, starting from the plain style.
pub open spec fn apply_all(decls: Seq<Seq<char>>) -> HtmlStyleView
    decreases decls.len(),
{
    if decls.len() == 0 {
        default_style()
    } else {
        apply_declaration(apply_all(decls.drop_last()), decls.last())
    }
}

/// Only `font-style` makes text italic and only `font-weight` makes it bold:
/// after any sequence of declarations, italic text had a `font-style`
/// declaration among them, and bold text a `font-weight` one; and a
/// declaration of another property leaves both as they were.
pub proof fn law_style_flags_come_from_their_own_properties(decls: Seq<Seq<char>>, d: Seq<char>)
    ensures
        apply_all(decls).italic ==> exists|i: int| 0 <= i < decls.len() && declared_property(#[trigger] decls[i]) == Some("font-style"@),
        apply_all(decls).bold ==> exists|i: int| 0 <= i < decls.len() && declared_property(#[trigger] decls[i]) == Some("font-weight"@),
        declared_property(d) != Some("font-style"@) ==> apply_all(decls.push(d)).italic == apply_all(decls).italic,
        declared_property(d) != Some("font-weight"@) ==> apply_all(decls.push(d)).bold == apply_all(decls).bold,
    decreases decls.len(),
{
    assert(decls.push(d).drop_last() =~= decls);
    law_a_declaration_sets_only_its_own_field(apply_all(decls), d);
    if decls.len() > 0 {
        let front = decls.drop_last();
        law_style_flags_come_from_their_own_properties(front, decls.last());
        law_a_declaration_sets_only_its_own_field(apply_all(front), decls.last());
        if apply_all(decls).italic && !apply_all(front).italic {
            assert(declared_property(decls[decls.len() - 1]) == Some("font-style"@));
        }
        if apply_all(front).italic {
            let i = choose|i: int| 0 <= i < front.len() && declared_property(#[trigger] front[i]) == Some("font-style"@);
            assert(decls[i] == front[i]);
        }
        if apply_all(decls).bold && !apply_all(front).bold {
            assert(declared_property(decls[decls.len() - 1]) == Some("font-weight"@));
        }
        if apply_all(front).bold {
            let i = choose|i: int| 0 <= i < front.len() && declared_property(#[trigger] front[i]) == Some("font-weight"@);
            assert(decls[i] == front[i]);
        }
    }
}

/// What a `style` attribute asks for: its `;`-separated declarations applied in order.
pub open spec fn html_style_spec(style: Seq<char>) -> HtmlStyleView {
    apply_all(split_pieces(style, ';'))
}

proof fn lemma_split_after_separator(s: Seq<char>, d: Seq<char>, sep: char)
    requires
        !d.contains(sep),
    ensures
        split_pieces(s.push(sep) + d, sep) == split_pieces(s, sep).push(d),
    decreases d.len(),
{
    let x = s.push(sep);
    if d.len() == 0 {
        assert(x + d =~= x);
        assert(x.drop_last() =~= s);
        assert(x.last() == sep);
        assert(d =~= Seq::<char>::empty());
        assert(split_pieces(x, sep) == split_pieces(x.drop_last(), sep).push(Seq::<char>::empty()));
    } else {
        let d0 = d.drop_last();
        let c = d.last();
        assert(!d0.contains(sep)) by {
            if d0.contains(sep) {
                let j = choose|j: int| 0 <= j < d0.len() && d0[j] == sep;
                assert(d[j] == sep);
            }
        }
        assert(c != sep) by {
            assert(d[d.len() - 1] == c);
        }
        lemma_split_after_separator(s, d0, sep);
        assert((x + d).drop_last() =~= x + d0);
        assert((x + d).last() == c);
        lemma_split_nonempty(x + d0, sep);
        let p = split_pieces(x + d0, sep);
        assert(p == split_pieces(s, sep).push(d0));
        assert(split_pieces(x + d, sep) == p.update(p.len() - 1, p.last().push(c)));
        assert(p.update(p.len() - 1, p.last().push(c)) =~= split_pieces(s, sep).push(d0.push(c)));
        assert(d0.push(c) =~= d);
    }
}

/// A declaration appended after a `;` is applied last: it overrides what
/// the earlier declarations set for its property, and nothing else changes.
pub proof fn law_later_declaration_wins(style: Seq<char>, decl: Seq<char>)
    requires
        !decl.contains(';'),
    ensures
        html_style_spec(style.push(';') + decl) == apply_declaration(html_style_spec(style), decl),
{
    lemma_split_after_separator(style, decl, ';');
    let pieces = split_pieces(style, ';').push(decl);
    assert(pieces.drop_last() =~= split_pieces(style, ';'));
    assert(pieces.last() == decl);
}

fn chars_eq(a: &[char], b: &str) -> (r: bool)
    ensures
        r == (a@ == b@),
{
    let bc = chars_of(b);
    if a.len() != bc.len() {
        return false;
    }
    let mut i: usize = 0;
    while i < a.len()
        invariant
            a@.len() == bc@.len(),
            bc@ == b@,
            i <= a@.len(),
            forall|j: int| 0 <= j < i ==> a@[j] == b@[j],
        decreases a@.len() - i,
    {
        if a[i] != bc[i] {
            return false;
        }
        i = i + 1;
    }
    assert(a@ =~= b@);
    true
}

fn sub_chars(v: &[char], from: usize, to: usize) -> (r: Vec<char>)
    requires
        from <= to <= v@.len(),
    ensures
        r@ == v@.subrange(from as int, to as int),
{
    let mut out: Vec<char> = Vec::new();
    let mut i = from;
    while i < to
        invariant
            from <= i <= to <= v@.len(),
            out@ == v@.subrange(from as int, i as int),
        decreases to - i,
    {
        out.push(v[i]);
        assert(out@ =~= v@.subrange(from as int, i + 1));
        i = i + 1;
    }
    out
}

fn lower_chars(v: &[char]) -> (r: Vec<char>)
    ensures
        r@ == lower_seq(v@),
{
    let mut out: Vec<char> = Vec::new();
    let mut i: usize = 0;
    while i < v.len()
        invariant
            i <= v@.len(),
            out@ == lower_seq(v@.subrange(0, i as int)),
        decreases v@.len() - i,
    {
        out.push(to_ascii_lower(v[i]));
        assert(out@ =~= lower_seq(v@.subrange(0, i + 1)));
        i = i + 1;
    }
    assert(v@.subrange(0, v@.len() as int) =~= v@);
    out
}

fn eq_ignore_case_at(v: &[char], i: usize, w: &[char]) -> (r: bool)
    requires
        i + w@.len() <= v@.len(),
    ensures
        r == eq_ignore_ascii_case_spec(v@.subrange(i as int, i + w@.len()), w@),
{
    let n = v.len();
    let mut j: usize = 0;
    while j < w.len()
        invariant
            n == v@.len(),
            i + w@.len() <= v@.len(),
            j <= w@.len(),
            forall|k: int| 0 <= k < j ==> ascii_lower(v@[i + k]) == ascii_lower(w@[k]),
        decreases w@.len() - j,
    {
        if to_ascii_lower(v[i + j]) != to_ascii_lower(w[j]) {
            assert(v@.subrange(i as int, i + w@.len())[j as int] == v@[i + j]);
            return false;
        }
        j = j + 1;
    }
    assert forall|k: int| 0 <= k < w@.len() implies ascii_lower(#[trigger] v@.subrange(i as int, i + w@.len())[k]) == ascii_lower(w@[k]) by {
        assert(v@.subrange(i as int, i + w@.len())[k] == v@[i + k]);
    }
    true
}

fn has_word(v: &[char], w: &[char]) -> (r: bool)
    ensures
        r == has_word_ignore_case(v@, w@),
{
    if w.len() > v.len() {
        return false;
    }
    let last = v.len() - w.len();
    let mut i: usize = 0;
    while i <= last
        invariant
            last == v@.len() - w@.len(),
            w@.len() <= v@.len(),
            i <= last + 1,
            forall|p: int| 0 <= p < i ==> !(eq_ignore_ascii_case_spec(#[trigger] v@.subrange(p, p + w@.len()), w@)
                && (p == 0 || is_white_space(v@[p - 1])) && (p + w@.len() == v@.len() || is_white_space(v@[p + w@.len()]))),
        decreases last + 1 - i,
    {
        let left = i == 0 || is_whitespace(v[i - 1]);
        let right = i + w.len() == v.len() || is_whitespace(v[i + w.len()]);
        if left && right && eq_ignore_case_at(v, i, w) {
            return true;
        }
        if i == last {
            assert forall|p: int| 0 <= p < i + 1 implies !(eq_ignore_ascii_case_spec(#[trigger] v@.subrange(p, p + w@.len()), w@)
                && (p == 0 || is_white_space(v@[p - 1])) && (p + w@.len() == v@.len() || is_white_space(v@[p + w@.len()]))) by {}
            assert(!has_word_ignore_case(v@, w@));
            return false;
        }
        i = i + 1;
    }
    false
}

/// Position of the first `:` of `decl`, if any.
fn find_colon(decl: &[char]) -> (r: Option<usize>)
    ensures
        r matches Some(k) ==> first_colon_at(decl@, k as int),
        r is None ==> !exists|k: int| first_colon_at(decl@, k),
{
    let mut i: usize = 0;
    while i < decl.len()
        invariant
            i <= decl@.len(),
            forall|j: int| 0 <= j < i ==> decl@[j] != ':',
        decreases decl@.len() - i,
    {
        if decl[i] == ':' {
            return Some(i);
        }
        i = i + 1;
    }
    None
}

proof fn lemma_first_colon_unique(s: Seq<char>, a: int, b: int)
    requires
        first_colon_at(s, a),
        first_colon_at(s, b),
    ensures
        a == b,
{
}

fn apply_decl(st: &mut HtmlStyle, decl: &[char])
    ensures
        final(st)@ == apply_declaration(old(st)@, decl@),
{
    let k = match find_colon(decl) {
        Some(k) => k,
        None => {
            return;
        },
    };
    proof {
        let c = choose|c: int| first_colon_at(decl@, c);
        lemma_first_colon_unique(decl@, c, k as int);
    }
    let prop_raw = sub_chars(decl, 0, k);
    let prop_trim = trim(prop_raw.as_slice());
    let property = lower_chars(prop_trim.as_slice());
    let n = decl.len();
    let value_raw = sub_chars(decl, k + 1, n);
    let value = trim(value_raw.as_slice());
    assert(value@.subrange(0, value@.len() as int) =~= value@);
    let p = property.as_slice();
    if chars_eq(p, "color") {
        st.color = Some(string_from_chars(value.as_slice(), 0, value.len()));
    } else if chars_eq(p, "font-size") {
        st.font_size = Some(string_from_chars(value.as_slice(), 0, value.len()));
    } else if chars_eq(p, "font-weight") {
        let text = string_from_chars(value.as_slice(), 0, value.len());
        st.bold = is_css_bold(text.as_str());
    } else if chars_eq(p, "font-style") {
        let text = string_from_chars(value.as_slice(), 0, value.len());
        st.italic = is_css_italic(text.as_str());
    } else if chars_eq(p, "background") || chars_eq(p, "background-color") {
        st.background_color = Some(string_from_chars(value.as_slice(), 0, value.len()));
    } else if chars_eq(p, "text-decoration") || chars_eq(p, "text-decoration-line") {
        let word = chars_of("underline");
        st.underline = has_word(value.as_slice(), word.as_slice());
    }
}

/// Read the declarations of a `style` attribute, in order; a later
/// declaration of a property replaces an earlier one.
pub fn parse_html_style(style: &str) -> (r: HtmlStyle)
    ensures
        r@ == html_style_spec(style@),
{
    let chars = chars_of(style);
    let mut st = HtmlStyle { color: None, font_size: None, bold: false, italic: false, background_color: None, underline: false };
    let mut piece: Vec<char> = Vec::new();
    let mut i: usize = 0;
    proof {
        lemma_split_nonempty(chars@.subrange(0, 0), ';');
        assert(chars@.subrange(0, 0) =~= Seq::<char>::empty());
        assert(apply_all(Seq::<Seq<char>>::empty()) == default_style());
        assert(split_pieces(Seq::<char>::empty(), ';').drop_last() =~= Seq::<Seq<char>>::empty());
    }
    while i < chars.len()
        invariant
            chars@ == style@,
            i <= chars@.len(),
            split_pieces(chars@.subrange(0, i as int), ';').len() >= 1,
            piece@ == split_pieces(chars@.subrange(0, i as int), ';').last(),
            st@ == apply_all(split_pieces(chars@.subrange(0, i as int), ';').drop_last()),
        decreases chars@.len() - i,
    {
        let c = chars[i];
        let ghost prefix = chars@.subrange(0, i as int);
        let ghost next = chars@.subrange(0, i + 1);
        assert(next.drop_last() =~= prefix);
        assert(next.last() == c);
        proof {
            lemma_split_nonempty(prefix, ';');
        }
        if c == ';' {
            let ghost pieces = split_pieces(prefix, ';');
            apply_decl(&mut st, piece.as_slice());
            piece = Vec::new();
            assert(split_pieces(next, ';') == pieces.push(Seq::<char>::empty()));
            assert(split_pieces(next, ';').drop_last() =~= pieces);
            assert(pieces == pieces.drop_last().push(pieces.last()));
        } else {
            let ghost pieces = split_pieces(prefix, ';');
            piece.push(c);
            assert(split_pieces(next, ';') == pieces.update(pieces.len() - 1, pieces.last().push(c)));
            assert(split_pieces(next, ';').drop_last() =~= pieces.drop_last());
        }
        i = i + 1;
    }
    apply_decl(&mut st, piece.as_slice());
    proof {
        let all = split_pieces(chars@, ';');
        assert(chars@.subrange(0, chars@.len() as int) =~= chars@);
        assert(all == all.drop_last().push(all.last()));
    }
    st
}

} // verus!
