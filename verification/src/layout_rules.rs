//! Discrete rules of math layout: TeX's binary-operator cancellation, atom
//! classes named by `\mathclass`-style strings, which Greek letters are set
//! in Math-Italic, delimiter aliases, and the CSS values `\htmlStyle` reads.

use vstd::prelude::*;

use crate::text::{
    chars_of, eq_ignore_ascii_case, eq_ignore_ascii_case_spec, parse_unsigned,
    parse_unsigned_spec, push_decimal_i64, int_decimal, str_eq, trim, trim_spec,
};

verus! {

// ---------------------------------------------------------------------------
// Atom classes and binary-operator cancellation
// ---------------------------------------------------------------------------

/// TeX's atom classes, which decide inter-atom spacing.
#[derive(Clone, Copy, Debug, PartialEq, Eq, Structural)]
pub enum MathClass {
    Ord,
    Op,
    Bin,
    Rel,
    Open,
    Close,
    Punct,
    Inner,
}

/// A preceding atom (or the start of the list) after which a binary
/// operator becomes ordinary (TeXbook rule 5).
pub open spec fn cancels_bin_on_left(prev: Option<MathClass>) -> bool {
    match prev {
        None => true,
        Some(c) => c == MathClass::Bin || c == MathClass::Open || c == MathClass::Rel || c == MathClass::Op || c == MathClass::Punct,
    }
}

/// A following atom (or the end of the list) before which a binary operator
/// becomes ordinary (TeXbook rule 6).
pub open spec fn cancels_bin_on_right(next: Option<MathClass>) -> bool {
    match next {
        None => true,
        Some(c) => c == MathClass::Rel || c == MathClass::Close || c == MathClass::Punct,
    }
}

/// Walking the list left to right, the class that the last classed atom
/// before position `i` ended with under the left rule; `None` when there is
/// no such atom (the start of the list). Entries without a class (spaces)
/// are skipped.
pub open spec fn left_state(raw: Seq<Option<MathClass>>, i: int) -> Option<MathClass>
    decreases i,
{
    if i <= 0 {
        None
    } else {
        let s = left_state(raw, i - 1);
        if raw[i - 1] is None {
            s
        } else if raw[i - 1] == Some(MathClass::Bin) && cancels_bin_on_left(s) {
            Some(MathClass::Ord)
        } else {
            raw[i - 1]
        }
    }
}

/// The class of atom `i` after the left rule alone.
pub open spec fn left_cancelled(raw: Seq<Option<MathClass>>, i: int) -> Option<MathClass> {
    if raw[i] == Some(MathClass::Bin) && cancels_bin_on_left(left_state(raw, i)) {
        Some(MathClass::Ord)
    } else {
        raw[i]
    }
}

/// The class of the first classed atom at or after position `j`; `None`
/// when there is none (the end of the list).
pub open spec fn first_classed_from(raw: Seq<Option<MathClass>>, j: int) -> Option<MathClass>
    decreases raw.len() - j,
{
    if j < 0 || j >= raw.len() {
        None
    } else if raw[j] is Some {
        raw[j]
    } else {
        first_classed_from(raw, j + 1)
    }
}

/// The class of atom `i` after cancellation: a binary operator becomes
/// ordinary when the previous classed atom, as already updated, is absent
/// or one of Bin, Open, Rel, Op, Punct, or when the next classed atom is
/// absent or one of Rel, Close, Punct.
pub open spec fn bin_cancelled(raw: Seq<Option<MathClass>>, i: int) -> Option<MathClass> {
    if raw[i] == Some(MathClass::Bin) && (cancels_bin_on_left(left_state(raw, i))
        || cancels_bin_on_right(first_classed_from(raw, i + 1))) {
        Some(MathClass::Ord)
    } else {
        raw[i]
    }
}

pub open spec fn bin_cancellation(raw: Seq<Option<MathClass>>) -> Seq<Option<MathClass>> {
    Seq::new(raw.len(), |i: int| bin_cancelled(raw, i))
}

fn is_bin(c: Option<MathClass>) -> (r: bool)
    ensures
        r == (c == Some(MathClass::Bin)),
{
    match c {
        Some(MathClass::Bin) => true,
        _ => false,
    }
}

fn cancels_left(c: Option<MathClass>) -> (r: bool)
    ensures
        r == cancels_bin_on_left(c),
{
    match c {
        None => true,
        Some(MathClass::Bin) | Some(MathClass::Open) | Some(MathClass::Rel) | Some(MathClass::Op) | Some(MathClass::Punct) => true,
        _ => false,
    }
}

fn cancels_right(c: Option<MathClass>) -> (r: bool)
    ensures
        r == cancels_bin_on_right(c),
{
    match c {
        None => true,
        Some(MathClass::Rel) | Some(MathClass::Close) | Some(MathClass::Punct) => true,
        _ => false,
    }
}

/// KaTeX's left and right binary-operator cancellers (TeXbook rules 5
/// and 6), applied over the classed atoms from left to right with entries
/// without a class skipped: a binary operator becomes ordinary at the start
/// of a list or after an atom whose class, as already updated, is Bin, Open,
/// Rel, Op or Punct, and at the end of a list or before Rel, Close or Punct.
pub fn apply_bin_cancellation(raw: &[Option<MathClass>]) -> (r: Vec<Option<MathClass>>)
    ensures
        r@ == bin_cancellation(raw@),
{
    let n = raw.len();
    let mut eff: Vec<Option<MathClass>> = Vec::new();
    let mut state: Option<MathClass> = None;
    let mut i: usize = 0;
    while i < n
        invariant
            n == raw@.len(),
            i <= n,
            eff@.len() == i,
            forall|j: int| 0 <= j < i ==> eff@[j] == left_cancelled(raw@, j),
            state == left_state(raw@, i as int),
        decreases n - i,
    {
        let c = raw[i];
        let out = if is_bin(c) && cancels_left(state) {
            Some(MathClass::Ord)
        } else {
            c
        };
        eff.push(out);
        if c.is_some() {
            state = out;
        }
        i = i + 1;
    }
    let mut next: Option<MathClass> = None;
    let mut i: usize = n;
    while i > 0
        invariant
            n == raw@.len() == eff@.len(),
            i <= n,
            forall|j: int| 0 <= j < i ==> eff@[j] == left_cancelled(raw@, j),
            forall|j: int| i <= j < n ==> eff@[j] == bin_cancelled(raw@, j),
            next == first_classed_from(raw@, i as int),
        decreases i,
    {
        i = i - 1;
        let c = raw[i];
        if is_bin(c) && cancels_right(next) {
            eff.set(i, Some(MathClass::Ord));
        }
        if c.is_some() {
            next = c;
        }
    }
    assert(eff@ =~= bin_cancellation(raw@));
    eff
}

/// Cancellation leaves entries without a class where they were and changes
/// no class into anything but Ord.
proof fn lemma_cancelled_class(raw: Seq<Option<MathClass>>, i: int)
    requires
        0 <= i < raw.len(),
    ensures
        (bin_cancelled(raw, i) is None) == (raw[i] is None),
        bin_cancelled(raw, i) == raw[i] || (raw[i] == Some(MathClass::Bin) && bin_cancelled(raw, i) == Some(MathClass::Ord)),
{
}

/// After cancellation, the next classed atom is absent exactly when it was
/// before, and it cancels a binary operator on its left exactly when it did.
proof fn lemma_first_classed_after_cancellation(raw: Seq<Option<MathClass>>, j: int)
    requires
        0 <= j <= raw.len(),
    ensures
        cancels_bin_on_right(first_classed_from(bin_cancellation(raw), j))
            == cancels_bin_on_right(first_classed_from(raw, j)),
    decreases raw.len() - j,
{
    let e = bin_cancellation(raw);
    if j < raw.len() {
        lemma_cancelled_class(raw, j);
        lemma_first_classed_after_cancellation(raw, j + 1);
    }
}

/// Walking the cancelled list, the left state equals the one of the raw
/// list, except right after a binary operator that the right rule turned
/// ordinary, where the raw walk still sees Bin and the next classed atom is
/// a right canceller.
proof fn lemma_left_state_after_cancellation(raw: Seq<Option<MathClass>>, i: int)
    requires
        0 <= i <= raw.len(),
    ensures
        left_state(bin_cancellation(raw), i) == left_state(raw, i) || (
            left_state(raw, i) == Some(MathClass::Bin)
            && left_state(bin_cancellation(raw), i) == Some(MathClass::Ord)
            && cancels_bin_on_right(first_classed_from(raw, i))),
    decreases i,
{
    let e = bin_cancellation(raw);
    if i > 0 {
        lemma_left_state_after_cancellation(raw, i - 1);
        lemma_cancelled_class(raw, i - 1);
        assert(e[i - 1] == bin_cancelled(raw, i - 1));
    }
}

/// What happens to a binary operator, in terms of its classed neighbours:
/// it stays binary when the previous classed atom (as already updated) is
/// Ord, Close or Inner and the next classed atom is Ord, Op, Open, Bin or
/// Inner; it becomes ordinary when there is no previous classed atom or it
/// is Bin, Open, Rel, Op or Punct, and when there is no next classed atom or
/// it is Rel, Close or Punct. Nothing else changes a binary operator, and no
/// other atom changes at all.
pub proof fn law_bin_cancellation_neighbours(raw: Seq<Option<MathClass>>, i: int)
    requires
        0 <= i < raw.len(),
    ensures
        raw[i] != Some(MathClass::Bin) ==> bin_cancellation(raw)[i] == raw[i],
        raw[i] == Some(MathClass::Bin) ==> {
            let prev = left_state(raw, i);
            let next = first_classed_from(raw, i + 1);
            &&& bin_cancellation(raw)[i] == Some(MathClass::Bin) || bin_cancellation(raw)[i] == Some(MathClass::Ord)
            &&& (prev == Some(MathClass::Ord) || prev == Some(MathClass::Close) || prev == Some(MathClass::Inner))
                && (next == Some(MathClass::Ord) || next == Some(MathClass::Op) || next == Some(MathClass::Open)
                    || next == Some(MathClass::Bin) || next == Some(MathClass::Inner))
                ==> bin_cancellation(raw)[i] == Some(MathClass::Bin)
            &&& prev is None || prev == Some(MathClass::Bin) || prev == Some(MathClass::Open) || prev == Some(MathClass::Rel)
                || prev == Some(MathClass::Op) || prev == Some(MathClass::Punct)
                ==> bin_cancellation(raw)[i] == Some(MathClass::Ord)
            &&& next is None || next == Some(MathClass::Rel) || next == Some(MathClass::Close) || next == Some(MathClass::Punct)
                ==> bin_cancellation(raw)[i] == Some(MathClass::Ord)
        },
{
}

/// Cancellation is idempotent: a binary operator that survives it has
/// neighbours that cancel nothing, so a second pass changes nothing.
pub proof fn law_bin_cancellation_idempotent(raw: Seq<Option<MathClass>>)
    ensures
        bin_cancellation(bin_cancellation(raw)) == bin_cancellation(raw),
{
    let e = bin_cancellation(raw);
    assert forall|i: int| 0 <= i < e.len() implies #[trigger] bin_cancelled(e, i) == e[i] by {
        if e[i] == Some(MathClass::Bin) {
            assert(raw[i] == Some(MathClass::Bin));
            lemma_left_state_after_cancellation(raw, i);
            lemma_first_classed_after_cancellation(raw, i + 1);
        }
    }
    assert(bin_cancellation(e) =~= e);
}

/// Cancellation only ever turns a binary operator into an ordinary atom,
/// and no binary operator survives at either end of a list.
pub proof fn law_bin_cancellation_shape(raw: Seq<Option<MathClass>>)
    ensures
        bin_cancellation(raw).len() == raw.len(),
        forall|i: int| 0 <= i < raw.len() ==> #[trigger] bin_cancellation(raw)[i] == raw[i]
            || (raw[i] == Some(MathClass::Bin) && bin_cancellation(raw)[i] == Some(MathClass::Ord)),
        raw.len() > 0 ==> bin_cancellation(raw)[0] != Some(MathClass::Bin),
        raw.len() > 0 ==> bin_cancellation(raw)[raw.len() - 1] != Some(MathClass::Bin),
{
}

/// The class named by a `\mathclass`-style string; unknown names are ordinary.
pub open spec fn mclass_spec(m: Seq<char>) -> MathClass {
    if m == "mord"@ {
        MathClass::Ord
    } else if m == "mop"@ {
        MathClass::Op
    } else if m == "mbin"@ {
        MathClass::Bin
    } else if m == "mrel"@ {
        MathClass::Rel
    } else if m == "mopen"@ {
        MathClass::Open
    } else if m == "mclose"@ {
        MathClass::Close
    } else if m == "mpunct"@ {
        MathClass::Punct
    } else if m == "minner"@ {
        MathClass::Inner
    } else {
        MathClass::Ord
    }
}

pub fn mclass_str_to_math_class(mclass: &str) -> (r: MathClass)
    ensures
        r == mclass_spec(mclass@),
{
    if str_eq(mclass, "mord") {
        MathClass::Ord
    } else if str_eq(mclass, "mop") {
        MathClass::Op
    } else if str_eq(mclass, "mbin") {
        MathClass::Bin
    } else if str_eq(mclass, "mrel") {
        MathClass::Rel
    } else if str_eq(mclass, "mopen") {
        MathClass::Open
    } else if str_eq(mclass, "mclose") {
        MathClass::Close
    } else if str_eq(mclass, "mpunct") {
        MathClass::Punct
    } else if str_eq(mclass, "minner") {
        MathClass::Inner
    } else {
        MathClass::Ord
    }
}

// ---------------------------------------------------------------------------
// Characters and command names
// ---------------------------------------------------------------------------

/// Lower-case Greek (U+03B1..U+03C9) and the variant forms ϑ ϕ ϖ ϱ ϵ, which
/// math mode sets in Math-Italic; upper-case Greek stays upright.
pub open spec fn math_italic_greek_spec(c: u32) -> bool {
    (0x03B1 <= c && c <= 0x03C9) || c == 0x03D1 || c == 0x03D5 || c == 0x03D6 || c == 0x03F1 || c == 0x03F5
}

pub fn is_math_italic_greek(ch: char) -> (r: bool)
    ensures
        r == math_italic_greek_spec(ch as u32),
{
    let c = ch as u32;
    (0x03B1 <= c && c <= 0x03C9) || c == 0x03D1 || c == 0x03D5 || c == 0x03D6 || c == 0x03F1 || c == 0x03F5
}

/// The accents drawn as stretchy arrows or harpoons.
pub open spec fn arrow_accent_spec(label: Seq<char>) -> bool {
    ||| label == "\\overrightarrow"@
    ||| label == "\\overleftarrow"@
    ||| label == "\\Overrightarrow"@
    ||| label == "\\overleftrightarrow"@
    ||| label == "\\underrightarrow"@
    ||| label == "\\underleftarrow"@
    ||| label == "\\underleftrightarrow"@
    ||| label == "\\overleftharpoon"@
    ||| label == "\\overrightharpoon"@
    ||| label == "\\overlinesegment"@
    ||| label == "\\underlinesegment"@
}

pub fn is_arrow_accent(label: &str) -> (r: bool)
    ensures
        r == arrow_accent_spec(label@),
{
    str_eq(label, "\\overrightarrow") || str_eq(label, "\\overleftarrow") || str_eq(label, "\\Overrightarrow")
        || str_eq(label, "\\overleftrightarrow") || str_eq(label, "\\underrightarrow")
        || str_eq(label, "\\underleftarrow") || str_eq(label, "\\underleftrightarrow")
        || str_eq(label, "\\overleftharpoon") || str_eq(label, "\\overrightharpoon")
        || str_eq(label, "\\overlinesegment") || str_eq(label, "\\underlinesegment")
}

// ---------------------------------------------------------------------------
// Delimiters
// ---------------------------------------------------------------------------

/// Angle-bracket aliases name `\langle` and `\rangle`; every other delimiter names itself.
pub open spec fn normalize_delim_spec(d: Seq<char>) -> Seq<char> {
    if d == "<"@ || d == "\\lt"@ || d == "\u{27E8}"@ {
        "\\langle"@
    } else if d == ">"@ || d == "\\gt"@ || d == "\u{27E9}"@ {
        "\\rangle"@
    } else {
        d
    }
}

pub fn normalize_delim<'a>(delim: &'a str) -> (r: &'a str)
    ensures
        r@ == normalize_delim_spec(delim@),
{
    if str_eq(delim, "<") || str_eq(delim, "\\lt") || str_eq(delim, "\u{27E8}") {
        "\\langle"
    } else if str_eq(delim, ">") || str_eq(delim, "\\gt") || str_eq(delim, "\u{27E9}") {
        "\\rangle"
    } else {
        delim
    }
}

/// Delimiters drawn as one vertical bar.
pub open spec fn vert_delim_spec(d: Seq<char>) -> bool {
    d == "|"@ || d == "\\vert"@ || d == "\\lvert"@ || d == "\\rvert"@
}

pub fn is_vert_delim(delim: &str) -> (r: bool)
    ensures
        r == vert_delim_spec(delim@),
{
    str_eq(delim, "|") || str_eq(delim, "\\vert") || str_eq(delim, "\\lvert") || str_eq(delim, "\\rvert")
}

/// Delimiters drawn as a double vertical bar.
pub open spec fn double_vert_delim_spec(d: Seq<char>) -> bool {
    d == "\\|"@ || d == "\\Vert"@ || d == "\\lVert"@ || d == "\\rVert"@
}

pub fn is_double_vert_delim(delim: &str) -> (r: bool)
    ensures
        r == double_vert_delim_spec(delim@),
{
    str_eq(delim, "\\|") || str_eq(delim, "\\Vert") || str_eq(delim, "\\lVert") || str_eq(delim, "\\rVert")
}

/// KaTeX's tall `vert` path (one bar) in viewBox units, with a middle run of `mid`.
pub open spec fn tall_vert_bar_path(mid: int) -> Seq<char> {
    "M145 15 v585 v"@ + int_decimal(mid)
        + " v585 c2.667,10,9.667,15,21,15 c10,0,16.667,-5,20,-15 v-585 v"@ + int_decimal(-mid)
        + " v-585 c-2.667,-10,-9.667,-15,-21,-15 c-10,0,-16.667,5,-20,15z M188 15 H145 v585 v"@ + int_decimal(mid)
        + " v585 h43z"@
}

/// The same bar drawn a second time 222 units to the right.
pub open spec fn tall_vert_second_bar_path(mid: int) -> Seq<char> {
    " M367 15 v585 v"@ + int_decimal(mid)
        + " v585 c2.667,10,9.667,15,21,15 c10,0,16.667,-5,20,-15 v-585 v"@ + int_decimal(-mid)
        + " v-585 c-2.667,-10,-9.667,-15,-21,-15 c-10,0,-16.667,5,-20,15z M410 15 H367 v585 v"@ + int_decimal(mid)
        + " v585 h43z"@
}

pub open spec fn tall_vert_path_spec(mid: int, is_double: bool) -> Seq<char> {
    if is_double {
        tall_vert_bar_path(mid) + tall_vert_second_bar_path(mid)
    } else {
        tall_vert_bar_path(mid)
    }
}

/// KaTeX `svgGeometry.tallDelim` path data for `vert` and `doublevert`.
pub fn tall_vert_svg_path_data(mid_th: i64, is_double: bool) -> (r: String)
    requires
        mid_th > i64::MIN,
    ensures
        r@ == tall_vert_path_spec(mid_th as int, is_double),
{
    let neg = -mid_th;
    let mut s = String::new();
    s.append("M145 15 v585 v");
    push_decimal_i64(&mut s, mid_th);
    s.append(" v585 c2.667,10,9.667,15,21,15 c10,0,16.667,-5,20,-15 v-585 v");
    push_decimal_i64(&mut s, neg);
    s.append(" v-585 c-2.667,-10,-9.667,-15,-21,-15 c-10,0,-16.667,5,-20,15z M188 15 H145 v585 v");
    push_decimal_i64(&mut s, mid_th);
    s.append(" v585 h43z");
    let ghost first = s@;
    assert(first =~= tall_vert_bar_path(mid_th as int));
    if is_double {
        s.append(" M367 15 v585 v");
        push_decimal_i64(&mut s, mid_th);
        s.append(" v585 c2.667,10,9.667,15,21,15 c10,0,16.667,-5,20,-15 v-585 v");
        push_decimal_i64(&mut s, neg);
        s.append(" v-585 c-2.667,-10,-9.667,-15,-21,-15 c-10,0,-16.667,5,-20,15z M410 15 H367 v585 v");
        push_decimal_i64(&mut s, mid_th);
        s.append(" v585 h43z");
        assert(s@ =~= first + tall_vert_second_bar_path(mid_th as int));
    }
    s
}

// ---------------------------------------------------------------------------
// CSS values read by \htmlStyle
// ---------------------------------------------------------------------------

/// `font-weight` values that mean bold: `bold`, `bolder` (any case) or a
/// `u16` weight of at least 600, around optional white space.
pub open spec fn css_bold_spec(v: Seq<char>) -> bool {
    let t = trim_spec(v);
    ||| eq_ignore_ascii_case_spec(t, "bold"@)
    ||| eq_ignore_ascii_case_spec(t, "bolder"@)
    ||| (parse_unsigned_spec(t, 65535) matches Some(w) && w >= 600)
}

pub fn is_css_bold(value: &str) -> (r: bool)
    ensures
        r == css_bold_spec(value@),
{
    let chars = chars_of(value);
    let t = trim(chars.as_slice());
    if eq_ignore_ascii_case(t.as_slice(), "bold") || eq_ignore_ascii_case(t.as_slice(), "bolder") {
        return true;
    }
    match parse_unsigned(t.as_slice(), 65535) {
        Some(weight) => weight >= 600,
        None => false,
    }
}

/// `font-style` values that mean italic: `italic` or `oblique` (any case),
/// around optional white space.
pub open spec fn css_italic_spec(v: Seq<char>) -> bool {
    let t = trim_spec(v);
    eq_ignore_ascii_case_spec(t, "italic"@) || eq_ignore_ascii_case_spec(t, "oblique"@)
}

pub fn is_css_italic(value: &str) -> (r: bool)
    ensures
        r == css_italic_spec(value@),
{
    let chars = chars_of(value);
    let t = trim(chars.as_slice());
    eq_ignore_ascii_case(t.as_slice(), "italic") || eq_ignore_ascii_case(t.as_slice(), "oblique")
}

} // verus!
